//! The hash commands: field/value maps stored under a key.
//!
//! A hash is kept as a sequence of field/value pairs: a new field goes at
//! the end, an existing one is updated in place, so the order of HKEYS,
//! HVALS and HGETALL is the order in which fields were first set.
use crate::command::list::min_int;
use crate::command::reply::{
    arg_i64, arg_option, arg_usize, option_of, usize_arg, arg_text, arg_views, arity_error, db_range_error, int_arg, int_to_bytes, invalid_error, key_of,
    lemma_arg_views, int_bytes, outcome_holds, text_bytes, Failure, Reply,
};
use crate::command::string::db_ok;
use crate::error::AikvError;
use crate::order::{bytes_before, bytes_lt, law_bytes_order};
use crate::text::{push_str, str_eq, string_of, u64_to_decimal};
use crate::protocol::RespValue;
use crate::storage::{
    bytes_eq, copy_bytes, drop_key, hash_lookup, pair_views, put_value, unix_time_millis, DbView, StorageEngine,
    StoredValue, Typed, ValueView,
};
use vstd::prelude::*;
use vstd::utf8::encode_utf8;

verus! {

/// A field/value pair as bytes.
pub type FieldPair = (Seq<u8>, Seq<u8>);

/// The field an argument names: its text (invalid UTF-8 replaced) as
/// UTF-8 bytes.
pub open spec fn field_of(a: Seq<u8>) -> Seq<u8> {
    encode_utf8(key_of(a))
}

/// `i` is the first position of field `f` in `h`.
pub open spec fn is_first_field(h: Seq<FieldPair>, f: Seq<u8>, i: int) -> bool {
    &&& 0 <= i < h.len()
    &&& h[i].0 == f
    &&& forall|j: int| 0 <= j < i ==> h[j].0 != f
}

/// The first position of field `f` in `h`, or the length of `h` when the
/// field is absent.
pub open spec fn field_pos(h: Seq<FieldPair>, f: Seq<u8>) -> int {
    if exists|i: int| is_first_field(h, f, i) {
        choose|i: int| is_first_field(h, f, i)
    } else {
        h.len() as int
    }
}

/// The value of field `f`, if the hash has it.
pub open spec fn hash_get(h: Seq<FieldPair>, f: Seq<u8>) -> Option<Seq<u8>> {
    let p = field_pos(h, f);
    if p < h.len() {
        Some(h[p].1)
    } else {
        None
    }
}

/// The hash with field `f` set to `v`: updated in place, or appended.
pub open spec fn hash_put(h: Seq<FieldPair>, f: Seq<u8>, v: Seq<u8>) -> Seq<FieldPair> {
    let p = field_pos(h, f);
    if p < h.len() {
        h.update(p, (f, v))
    } else {
        h.push((f, v))
    }
}

/// The hash without field `f`.
pub open spec fn hash_del(h: Seq<FieldPair>, f: Seq<u8>) -> Seq<FieldPair> {
    let p = field_pos(h, f);
    if p < h.len() {
        h.remove(p)
    } else {
        h
    }
}

/// No field occurs twice.
pub open spec fn unique_fields(h: Seq<FieldPair>) -> bool {
    forall|i: int, j: int| 0 <= i < j < h.len() ==> h[i].0 != h[j].0
}

/// The hash a lookup gives, the empty one when the key holds nothing.
pub open spec fn hash_or_empty(t: Typed<Seq<FieldPair>>) -> Seq<FieldPair> {
    match t {
        Typed::Found(h) => h,
        _ => Seq::empty(),
    }
}

/// The first `n` field/value pairs of HSET's arguments applied to `h`, with
/// the number of fields that were new.
pub open spec fn hset_fold(h: Seq<FieldPair>, a: Seq<Seq<u8>>, n: nat) -> (Seq<FieldPair>, int)
    decreases n,
{
    if n == 0 {
        (h, 0)
    } else {
        let prev = hset_fold(h, a, (n - 1) as nat);
        let f = field_of(a[2 * n - 1]);
        (hash_put(prev.0, f, a[2 * n as int]), prev.1 + if hash_get(prev.0, f) is Some {
            0int
        } else {
            1int
        })
    }
}

/// The first `n` fields of HDEL's arguments removed from `h`, with the
/// number of fields that were present.
pub open spec fn hdel_fold(h: Seq<FieldPair>, a: Seq<Seq<u8>>, n: nat) -> (Seq<FieldPair>, int)
    decreases n,
{
    if n == 0 {
        (h, 0)
    } else {
        let prev = hdel_fold(h, a, (n - 1) as nat);
        let f = field_of(a[n as int]);
        (hash_del(prev.0, f), prev.1 + if hash_get(prev.0, f) is Some {
            1int
        } else {
            0int
        })
    }
}

/// The answer for a field's value: the bulk string, or the null value.
pub open spec fn value_reply(v: Option<Seq<u8>>) -> Reply {
    match v {
        Some(b) => Reply::Bulk(b),
        None => Reply::Nil,
    }
}

/// HSET (`ok_answer` false) and HMSET (`ok_answer` true): sets each field to
/// its value; HSET answers the number of new fields, HMSET answers OK.
pub open spec fn hset_spec(m: Seq<DbView>, db: int, a: Seq<Seq<u8>>, now: u64, ok_answer: bool) -> (Reply, Seq<DbView>) {
    let name = if ok_answer {
        "HMSET"@
    } else {
        "HSET"@
    };
    if a.len() < 3 || a.len() % 2 == 0 {
        (Reply::Fail(Failure::Arity(name)), m)
    } else if !db_ok(m, db) {
        (Reply::Fail(Failure::DbRange), m)
    } else {
        let key = key_of(a[0]);
        let t = hash_lookup(m[db], key, now);
        if t is WrongType {
            (Reply::Fail(Failure::WrongType), m)
        } else {
            let r = hset_fold(hash_or_empty(t), a, ((a.len() - 1) / 2) as nat);
            (
                if ok_answer {
                    Reply::Simple("OK"@)
                } else {
                    Reply::Int(r.1)
                },
                put_value(m, db, key, ValueView::Hash(r.0)),
            )
        }
    }
}

/// HSETNX key field value
pub open spec fn hsetnx_spec(m: Seq<DbView>, db: int, a: Seq<Seq<u8>>, now: u64) -> (Reply, Seq<DbView>) {
    if a.len() != 3 {
        (Reply::Fail(Failure::Arity("HSETNX"@)), m)
    } else if !db_ok(m, db) {
        (Reply::Fail(Failure::DbRange), m)
    } else {
        let key = key_of(a[0]);
        let t = hash_lookup(m[db], key, now);
        let h = hash_or_empty(t);
        let f = field_of(a[1]);
        if t is WrongType {
            (Reply::Fail(Failure::WrongType), m)
        } else if hash_get(h, f) is Some {
            (Reply::Int(0), m)
        } else {
            (Reply::Int(1), put_value(m, db, key, ValueView::Hash(hash_put(h, f, a[2]))))
        }
    }
}

/// A read-only hash command: checks the argument count, the database and
/// the key's kind, then answers from the hash (empty when absent).
pub open spec fn hash_read(
    m: Seq<DbView>,
    db: int,
    a: Seq<Seq<u8>>,
    now: u64,
    name: Seq<char>,
    arity_ok: bool,
    answer: spec_fn(Seq<FieldPair>) -> Reply,
) -> (Reply, Seq<DbView>) {
    if !arity_ok {
        (Reply::Fail(Failure::Arity(name)), m)
    } else if !db_ok(m, db) {
        (Reply::Fail(Failure::DbRange), m)
    } else {
        let t = hash_lookup(m[db], key_of(a[0]), now);
        if t is WrongType {
            (Reply::Fail(Failure::WrongType), m)
        } else {
            (answer(hash_or_empty(t)), m)
        }
    }
}

/// HGET key field
pub open spec fn hget_spec(m: Seq<DbView>, db: int, a: Seq<Seq<u8>>, now: u64) -> (Reply, Seq<DbView>) {
    hash_read(m, db, a, now, "HGET"@, a.len() == 2, |h: Seq<FieldPair>| value_reply(hash_get(h, field_of(a[1]))))
}

/// HMGET key field [field ...]
pub open spec fn hmget_spec(m: Seq<DbView>, db: int, a: Seq<Seq<u8>>, now: u64) -> (Reply, Seq<DbView>) {
    hash_read(
        m,
        db,
        a,
        now,
        "HMGET"@,
        a.len() >= 2,
        |h: Seq<FieldPair>|
            Reply::Array(Seq::new((a.len() - 1) as nat, |i: int| value_reply(hash_get(h, field_of(a[i + 1]))))),
    )
}

/// HEXISTS key field
pub open spec fn hexists_spec(m: Seq<DbView>, db: int, a: Seq<Seq<u8>>, now: u64) -> (Reply, Seq<DbView>) {
    hash_read(
        m,
        db,
        a,
        now,
        "HEXISTS"@,
        a.len() == 2,
        |h: Seq<FieldPair>|
            Reply::Int(
                if hash_get(h, field_of(a[1])) is Some {
                    1
                } else {
                    0
                },
            ),
    )
}

/// HLEN key
pub open spec fn hlen_spec(m: Seq<DbView>, db: int, a: Seq<Seq<u8>>, now: u64) -> (Reply, Seq<DbView>) {
    hash_read(m, db, a, now, "HLEN"@, a.len() == 1, |h: Seq<FieldPair>| Reply::Int(h.len() as int))
}

/// HKEYS key
pub open spec fn hkeys_spec(m: Seq<DbView>, db: int, a: Seq<Seq<u8>>, now: u64) -> (Reply, Seq<DbView>) {
    hash_read(
        m,
        db,
        a,
        now,
        "HKEYS"@,
        a.len() == 1,
        |h: Seq<FieldPair>| Reply::Array(h.map_values(|p: FieldPair| Reply::Bulk(p.0))),
    )
}

/// HVALS key
pub open spec fn hvals_spec(m: Seq<DbView>, db: int, a: Seq<Seq<u8>>, now: u64) -> (Reply, Seq<DbView>) {
    hash_read(
        m,
        db,
        a,
        now,
        "HVALS"@,
        a.len() == 1,
        |h: Seq<FieldPair>| Reply::Array(h.map_values(|p: FieldPair| Reply::Bulk(p.1))),
    )
}

/// The fields and values of a hash, alternating.
pub open spec fn flat_pairs(h: Seq<FieldPair>) -> Seq<Reply> {
    Seq::new(
        2 * h.len(),
        |i: int|
            if i % 2 == 0 {
                Reply::Bulk(h[i / 2].0)
            } else {
                Reply::Bulk(h[i / 2].1)
            },
    )
}

/// HGETALL key
pub open spec fn hgetall_spec(m: Seq<DbView>, db: int, a: Seq<Seq<u8>>, now: u64) -> (Reply, Seq<DbView>) {
    hash_read(m, db, a, now, "HGETALL"@, a.len() == 1, |h: Seq<FieldPair>| Reply::Array(flat_pairs(h)))
}

/// HDEL key field [field ...]: removes the fields; a hash left empty is
/// removed.
pub open spec fn hdel_spec(m: Seq<DbView>, db: int, a: Seq<Seq<u8>>, now: u64) -> (Reply, Seq<DbView>) {
    if a.len() < 2 {
        (Reply::Fail(Failure::Arity("HDEL"@)), m)
    } else if !db_ok(m, db) {
        (Reply::Fail(Failure::DbRange), m)
    } else {
        let key = key_of(a[0]);
        match hash_lookup(m[db], key, now) {
            Typed::WrongType => (Reply::Fail(Failure::WrongType), m),
            Typed::Absent => (Reply::Int(0), m),
            Typed::Found(h) => {
                let r = hdel_fold(h, a, (a.len() - 1) as nat);
                (
                    Reply::Int(r.1),
                    if r.0.len() == 0 {
                        drop_key(m, db, key)
                    } else {
                        put_value(m, db, key, ValueView::Hash(r.0))
                    },
                )
            },
        }
    }
}

/// HINCRBY key field increment: the field read as an integer (0 when
/// absent), plus the increment.
pub open spec fn hincrby_spec(m: Seq<DbView>, db: int, a: Seq<Seq<u8>>, now: u64) -> (Reply, Seq<DbView>) {
    if a.len() != 3 {
        (Reply::Fail(Failure::Arity("HINCRBY"@)), m)
    } else {
        match int_arg(a[2]) {
            None => (Reply::Fail(Failure::Invalid("invalid increment"@)), m),
            Some(inc) => if !db_ok(m, db) {
                (Reply::Fail(Failure::DbRange), m)
            } else {
                let key = key_of(a[0]);
                let t = hash_lookup(m[db], key, now);
                let h = hash_or_empty(t);
                let f = field_of(a[1]);
                let cur = match hash_get(h, f) {
                    None => Some(0int),
                    Some(v) => int_arg(v),
                };
                if t is WrongType {
                    (Reply::Fail(Failure::WrongType), m)
                } else {
                    match cur {
                        None => (Reply::Fail(Failure::Invalid("hash value is not an integer"@)), m),
                        Some(c) => if c + inc < i64::MIN || c + inc > i64::MAX {
                            (Reply::Fail(Failure::Invalid("ERR increment or decrement would overflow"@)), m)
                        } else {
                            (
                                Reply::Int(c + inc),
                                put_value(m, db, key, ValueView::Hash(hash_put(h, f, int_bytes(c + inc)))),
                            )
                        },
                    }
                }
            },
        }
    }
}

/// `p` put into `s` before the first pair whose field does not order
/// before the field of `p`.
pub open spec fn insert_by_field(s: Seq<FieldPair>, p: FieldPair) -> Seq<FieldPair>
    decreases s.len(),
{
    if s.len() == 0 {
        seq![p]
    } else if bytes_lt(s[0].0, p.0) {
        seq![s[0]] + insert_by_field(s.drop_first(), p)
    } else {
        seq![p] + s
    }
}

/// The pairs of `h` ordered by field.
pub open spec fn sorted_by_field(h: Seq<FieldPair>) -> Seq<FieldPair>
    decreases h.len(),
{
    if h.len() == 0 {
        h
    } else {
        insert_by_field(sorted_by_field(h.drop_last()), h.last())
    }
}

/// Whether the fields of `h` are in strictly increasing byte order.
pub open spec fn fields_ascending(h: Seq<FieldPair>) -> bool {
    forall|i: int, j: int| 0 <= i < j < h.len() ==> bytes_lt(#[trigger] h[i].0, #[trigger] h[j].0)
}

/// The pairs whose field text matches pattern `p`, in order.
pub open spec fn matching_pairs(h: Seq<FieldPair>, p: Seq<char>) -> Seq<FieldPair>
    decreases h.len(),
{
    if h.len() == 0 {
        h
    } else {
        let r = matching_pairs(h.drop_last(), p);
        if crate::command::pattern::glob_spec(p, key_of(h.last().0)) {
            r.push(h.last())
        } else {
            r
        }
    }
}

/// HSCAN's options from position `i` on: an optional MATCH pattern and the
/// COUNT (10 when not given, 1 when given as 0).
pub open spec fn hscan_options(a: Seq<Seq<u8>>, i: int, pat: Option<Seq<char>>, count: nat) -> Result<
    (Option<Seq<char>>, nat),
    Seq<char>,
>
    decreases a.len() - i,
{
    if i < 0 || i >= a.len() {
        Ok((pat, count))
    } else {
        let opt = option_of(a[i]);
        if opt == "MATCH"@ {
            if i + 1 >= a.len() {
                Err("ERR syntax error"@)
            } else {
                hscan_options(a, i + 2, Some(key_of(a[i + 1])), count)
            }
        } else if opt == "COUNT"@ {
            if i + 1 >= a.len() {
                Err("ERR syntax error"@)
            } else {
                match usize_arg(a[i + 1]) {
                    None => Err("ERR value is not an integer"@),
                    Some(c) => hscan_options(
                        a,
                        i + 2,
                        pat,
                        if c == 0 {
                            1
                        } else {
                            c
                        },
                    ),
                }
            }
        } else {
            Err("ERR unknown option '"@ + opt + "'"@)
        }
    }
}

/// One page of an HSCAN over the pairs `h`: the cursor that follows and the
/// fields and values from `cursor` on, at most `count` pairs, in field
/// order, keeping those whose field matches the pattern when one is given.
pub open spec fn hscan_page(h: Seq<FieldPair>, cursor: nat, o: (Option<Seq<char>>, nat)) -> Reply {
    let sorted = sorted_by_field(h);
    let filtered = match o.0 {
        Some(p) => matching_pairs(sorted, p),
        None => sorted,
    };
    let total = filtered.len() as int;
    let end = min_int((cursor + o.1) as int, total);
    let next = if end >= total {
        0int
    } else {
        end
    };
    let page = if cursor >= total {
        Seq::<FieldPair>::empty()
    } else {
        filtered.subrange(cursor as int, end)
    };
    Reply::Array(
        seq![
            Reply::Bulk(encode_utf8(crate::text::decimal_spec(next as nat))),
            Reply::Array(flat_pairs(page)),
        ],
    )
}

/// HSCAN key cursor [MATCH pattern] [COUNT count]
pub open spec fn hscan_spec(m: Seq<DbView>, db: int, a: Seq<Seq<u8>>, now: u64) -> (Reply, Seq<DbView>) {
    if a.len() < 2 {
        (Reply::Fail(Failure::Arity("HSCAN"@)), m)
    } else {
        match usize_arg(a[1]) {
            None => (Reply::Fail(Failure::Invalid("ERR invalid cursor"@)), m),
            Some(cursor) => match hscan_options(a, 2, None, 10) {
                Err(msg) => (Reply::Fail(Failure::Invalid(msg)), m),
                Ok(o) => hash_read(m, db, a, now, "HSCAN"@, true, |h: Seq<FieldPair>| hscan_page(h, cursor, o)),
            },
        }
    }
}

// ---------------------------------------------------------------------------
// Facts about the hash model
// ---------------------------------------------------------------------------

/// Where `insert_by_field` puts `p`: after the leading pairs that order
/// before it.
proof fn lemma_insert_position(s: Seq<FieldPair>, p: FieldPair) -> (j: int)
    ensures
        0 <= j <= s.len(),
        insert_by_field(s, p) == s.insert(j, p),
        forall|k: int| 0 <= k < j ==> bytes_lt(#[trigger] s[k].0, p.0),
        j < s.len() ==> !bytes_lt(s[j].0, p.0),
    decreases s.len(),
{
    if s.len() == 0 {
        assert(s.insert(0, p) =~= seq![p]);
        0
    } else if bytes_lt(s[0].0, p.0) {
        let t = s.drop_first();
        let j = lemma_insert_position(t, p);
        assert(s.insert(j + 1, p) =~= seq![s[0]] + t.insert(j, p));
        assert forall|k: int| 0 <= k < j + 1 implies bytes_lt(#[trigger] s[k].0, p.0) by {
            if k > 0 {
                assert(s[k] == t[k - 1]);
            }
        }
        if j + 1 < s.len() {
            assert(s[j + 1] == t[j]);
        }
        j + 1
    } else {
        assert(s.insert(0, p) =~= seq![p] + s);
        0
    }
}

/// Ordering the pairs by field keeps every pair: the result holds the same
/// pairs, as often each.
pub proof fn law_sorted_by_field_permutes(h: Seq<FieldPair>)
    ensures
        sorted_by_field(h).to_multiset() == h.to_multiset(),
    decreases h.len(),
{
    broadcast use vstd::seq_lib::group_to_multiset_ensures;

    if h.len() > 0 {
        let rest = h.drop_last();
        law_sorted_by_field_permutes(rest);
        let s = sorted_by_field(rest);
        let j = lemma_insert_position(s, h.last());
        assert(h =~= rest.push(h.last()));
        assert(s.insert(j, h.last()).to_multiset() == s.to_multiset().insert(h.last()));
    }
}

/// A hash's pairs, ordered by field as HSCAN walks them, come out in
/// strictly increasing field order when the fields are distinct.
pub proof fn law_sorted_by_field_ascends(h: Seq<FieldPair>)
    requires
        unique_fields(h),
    ensures
        fields_ascending(sorted_by_field(h)),
    decreases h.len(),
{
    broadcast use vstd::seq_lib::group_to_multiset_ensures;

    if h.len() > 0 {
        let rest = h.drop_last();
        let p = h.last();
        assert(unique_fields(rest)) by {
            assert forall|i: int, j: int| 0 <= i < j < rest.len() implies rest[i].0 != rest[j].0 by {
                assert(rest[i] == h[i] && rest[j] == h[j]);
            }
        }
        law_sorted_by_field_ascends(rest);
        law_sorted_by_field_permutes(rest);
        let s = sorted_by_field(rest);
        let j = lemma_insert_position(s, p);
        let r = s.insert(j, p);
        assert forall|k: int| 0 <= k < s.len() implies #[trigger] s[k].0 != p.0 by {
            assert(s.to_multiset().count(s[k]) > 0);
            assert(rest.contains(s[k]));
            let m = choose|m: int| 0 <= m < rest.len() && rest[m] == s[k];
            assert(h[m] == rest[m]);
            assert(h[h.len() - 1] == p);
        }
        if j < s.len() {
            law_bytes_order(p.0, s[j].0, s[j].0);
        }
        assert forall|a: int, b: int| 0 <= a < b < r.len() implies bytes_lt(#[trigger] r[a].0, #[trigger] r[b].0) by {
            if b < j {
                assert(r[a] == s[a] && r[b] == s[b]);
            } else if b == j {
                assert(r[a] == s[a] && r[b] == p);
            } else if a < j {
                assert(r[a] == s[a] && r[b] == s[b - 1]);
            } else if a == j {
                assert(r[a] == p && r[b] == s[b - 1]);
                if b - 1 > j {
                    assert(bytes_lt(s[j].0, s[b - 1].0));
                    law_bytes_order(p.0, s[j].0, s[b - 1].0);
                }
            } else {
                assert(r[a] == s[a - 1] && r[b] == s[b - 1]);
            }
        }
    }
}

proof fn lemma_first_exists(h: Seq<FieldPair>, f: Seq<u8>, j: int)
    requires
        0 <= j < h.len(),
        h[j].0 == f,
    ensures
        exists|i: int| is_first_field(h, f, i),
    decreases j,
{
    if forall|k: int| 0 <= k < j ==> h[k].0 != f {
        assert(is_first_field(h, f, j));
    } else {
        let k = choose|k: int| 0 <= k < j && h[k].0 == f;
        lemma_first_exists(h, f, k);
    }
}

/// Where field `f` first occurs: every earlier field differs, and the
/// position is the length exactly when the field is absent.
pub proof fn lemma_field_pos(h: Seq<FieldPair>, f: Seq<u8>)
    ensures
        0 <= field_pos(h, f) <= h.len(),
        field_pos(h, f) < h.len() ==> h[field_pos(h, f)].0 == f,
        forall|j: int| 0 <= j < field_pos(h, f) ==> h[j].0 != f,
{
    if exists|i: int| is_first_field(h, f, i) {
    } else {
        assert forall|j: int| 0 <= j < h.len() implies h[j].0 != f by {
            if h[j].0 == f {
                lemma_first_exists(h, f, j);
            }
        }
    }
}

/// Setting a field and reading it back gives the value set; other fields
/// keep their values.
pub proof fn law_hash_put_get(h: Seq<FieldPair>, f: Seq<u8>, v: Seq<u8>, g: Seq<u8>)
    ensures
        hash_get(hash_put(h, f, v), f) == Some(v),
        g != f ==> hash_get(hash_put(h, f, v), g) == hash_get(h, g),
{
    lemma_field_pos(h, f);
    let h2 = hash_put(h, f, v);
    let p = field_pos(h, f);
    assert(is_first_field(h2, f, p));
    lemma_field_pos(h2, f);
    lemma_field_pos(h2, g);
    lemma_field_pos(h, g);
    let q = field_pos(h, g);
    if g != f {
        if q < h.len() {
            assert(is_first_field(h2, g, q));
        } else {
            assert forall|j: int| 0 <= j < h2.len() implies h2[j].0 != g by {}
            if exists|i: int| is_first_field(h2, g, i) {
                let i = choose|i: int| is_first_field(h2, g, i);
                assert(h2[i].0 == g);
            }
        }
    }
}

/// Setting a field keeps the fields distinct.
pub proof fn law_hash_put_unique(h: Seq<FieldPair>, f: Seq<u8>, v: Seq<u8>)
    requires
        unique_fields(h),
    ensures
        unique_fields(hash_put(h, f, v)),
{
    lemma_field_pos(h, f);
}

/// Removing a field from a hash whose fields are distinct leaves it absent
/// and keeps the fields distinct.
pub proof fn law_hash_del(h: Seq<FieldPair>, f: Seq<u8>)
    requires
        unique_fields(h),
    ensures
        hash_get(hash_del(h, f), f) is None,
        unique_fields(hash_del(h, f)),
{
    lemma_field_pos(h, f);
    let h2 = hash_del(h, f);
    lemma_field_pos(h2, f);
    let q = field_pos(h2, f);
    if q < h2.len() {
        let p = field_pos(h, f);
        assert(p < h.len());
        if q < p {
            assert(h2[q] == h[q]);
        } else {
            assert(h2[q] == h[q + 1]);
        }
    }
}

// ---------------------------------------------------------------------------
// The handler
// ---------------------------------------------------------------------------

pub(crate) proof fn lemma_pair_index(k: int, n: int, len: int)
    by (nonlinear_arith)
    requires
        0 <= k < n,
        n == (len - 1) / 2,
        len >= 3,
    ensures
        2 * k + 2 <= len - 1,
{
}

/// Putting `p` after the `j` leading pairs that order before it, where the
/// pair at `j` does not, is `insert_by_field`.
proof fn lemma_insert_at(s: Seq<FieldPair>, p: FieldPair, j: int)
    requires
        0 <= j <= s.len(),
        forall|k: int| 0 <= k < j ==> bytes_lt(#[trigger] s[k].0, p.0),
        j < s.len() ==> !bytes_lt(s[j].0, p.0),
    ensures
        insert_by_field(s, p) == s.insert(j, p),
    decreases j,
{
    if j == 0 {
        if s.len() == 0 {
            assert(s.insert(0, p) =~= seq![p]);
        } else {
            assert(s.insert(0, p) =~= seq![p] + s);
        }
    } else {
        let t = s.drop_first();
        assert forall|k: int| 0 <= k < j - 1 implies bytes_lt(#[trigger] t[k].0, p.0) by {
            assert(t[k] == s[k + 1]);
        }
        if j - 1 < t.len() {
            assert(t[j - 1] == s[j]);
        }
        lemma_insert_at(t, p, j - 1);
        assert(bytes_lt(s[0].0, p.0));
        assert(s.insert(j, p) =~= seq![s[0]] + t.insert(j - 1, p));
    }
}

proof fn lemma_pairs_take_step(s: Seq<FieldPair>, i: int)
    requires
        0 <= i < s.len(),
    ensures
        s.take(i + 1).drop_last() == s.take(i),
        s.take(i + 1).last() == s[i],
        s.take(i + 1).len() == i + 1,
{
    assert(s.take(i + 1).drop_last() =~= s.take(i));
}

/// The pairs of `h` ordered by field, by insertion.
fn sort_by_field(h: &Vec<(Vec<u8>, Vec<u8>)>) -> (r: Vec<(Vec<u8>, Vec<u8>)>)
    ensures
        pair_views(r@) == sorted_by_field(pair_views(h@)),
{
    let ghost hv = pair_views(h@);
    let mut out: Vec<(Vec<u8>, Vec<u8>)> = Vec::new();
    let mut i: usize = 0;
    proof {
        assert(hv.take(0) =~= Seq::<FieldPair>::empty());
        assert(pair_views(out@) =~= Seq::<FieldPair>::empty());
    }
    while i < h.len()
        invariant
            i <= h@.len(),
            hv == pair_views(h@),
            pair_views(out@) == sorted_by_field(hv.take(i as int)),
        decreases h.len() - i,
    {
        let f = copy_bytes(&h[i].0);
        let v = copy_bytes(&h[i].1);
        let ghost sv = pair_views(out@);
        let mut j: usize = 0;
        while j < out.len() && bytes_before(&out[j].0, &f)
            invariant
                j <= out@.len(),
                sv == pair_views(out@),
                forall|k: int| 0 <= k < j ==> bytes_lt(#[trigger] sv[k].0, f@),
            decreases out.len() - j,
        {
            j = j + 1;
        }
        proof {
            lemma_insert_at(sv, (f@, v@), j as int);
            lemma_pairs_take_step(hv, i as int);
        }
        out.insert(j, (f, v));
        proof {
            assert(pair_views(out@) =~= sv.insert(j as int, (f@, v@)));
        }
        i = i + 1;
    }
    proof {
        assert(hv.take(h@.len() as int) =~= hv);
    }
    out
}

/// The pairs of `v` whose field text matches `pattern`, in order.
fn filter_pairs(v: &Vec<(Vec<u8>, Vec<u8>)>, pattern: &str) -> (r: Vec<(Vec<u8>, Vec<u8>)>)
    ensures
        pair_views(r@) == matching_pairs(pair_views(v@), pattern@),
{
    let ghost vv = pair_views(v@);
    let mut out: Vec<(Vec<u8>, Vec<u8>)> = Vec::new();
    let mut i: usize = 0;
    proof {
        assert(vv.take(0) =~= Seq::<FieldPair>::empty());
        assert(pair_views(out@) =~= Seq::<FieldPair>::empty());
    }
    while i < v.len()
        invariant
            i <= v@.len(),
            vv == pair_views(v@),
            pair_views(out@) == matching_pairs(vv.take(i as int), pattern@),
        decreases v.len() - i,
    {
        proof {
            lemma_pairs_take_step(vv, i as int);
        }
        let text = arg_text(&v[i].0);
        let ghost before = pair_views(out@);
        if crate::command::pattern::glob_match(pattern, text.as_str()) {
            out.push((copy_bytes(&v[i].0), copy_bytes(&v[i].1)));
            proof {
                assert(pair_views(out@) =~= before.push(vv[i as int]));
            }
        }
        i = i + 1;
    }
    proof {
        assert(vv.take(v@.len() as int) =~= vv);
    }
    out
}

/// Copies of the pairs of `v` from `from` up to `to`.
fn copy_pair_range(v: &Vec<(Vec<u8>, Vec<u8>)>, from: usize, to: usize) -> (r: Vec<(Vec<u8>, Vec<u8>)>)
    requires
        from <= to <= v@.len(),
    ensures
        pair_views(r@) == pair_views(v@).subrange(from as int, to as int),
{
    let mut r: Vec<(Vec<u8>, Vec<u8>)> = Vec::new();
    let mut i: usize = from;
    while i < to
        invariant
            from <= i <= to,
            to <= v@.len(),
            r@.len() == i - from,
            forall|j: int| 0 <= j < r@.len() ==> #[trigger] r@[j].0@ == v@[from + j].0@ && r@[j].1@ == v@[from + j].1@,
        decreases to - i,
    {
        let ghost before = r@;
        r.push((copy_bytes(&v[i].0), copy_bytes(&v[i].1)));
        proof {
            assert forall|j: int| 0 <= j < r@.len() implies #[trigger] r@[j].0@ == v@[from + j].0@ && r@[j].1@
                == v@[from + j].1@ by {
                if j < before.len() {
                    assert(r@[j] == before[j]);
                }
            }
        }
        i = i + 1;
    }
    proof {
        assert(pair_views(r@) =~= pair_views(v@).subrange(from as int, to as int));
    }
    r
}

/// The first position of field `f` in `h` (the length when absent).
pub(crate) fn find_field(h: &Vec<(Vec<u8>, Vec<u8>)>, f: &Vec<u8>) -> (r: usize)
    ensures
        r as int == field_pos(pair_views(h@), f@),
        r <= h@.len(),
{
    let ghost hv = pair_views(h@);
    let mut i: usize = 0;
    while i < h.len()
        invariant
            i <= h@.len(),
            hv == pair_views(h@),
            hv.len() == h@.len(),
            forall|j: int| 0 <= j < i ==> hv[j].0 != f@,
        decreases h.len() - i,
    {
        if bytes_eq(&h[i].0, f) {
            proof {
                assert(hv[i as int].0 == f@);
                assert(is_first_field(hv, f@, i as int));
                let c = choose|k: int| is_first_field(hv, f@, k);
                assert(c == i) by {
                    if c < i {
                        assert(hv[c].0 != f@);
                    }
                    if c > i {
                        assert(hv[i as int].0 != f@);
                    }
                }
            }
            return i;
        }
        i = i + 1;
    }
    proof {
        if exists|k: int| is_first_field(hv, f@, k) {
            let c = choose|k: int| is_first_field(hv, f@, k);
            assert(hv[c].0 == f@);
        }
    }
    h.len()
}

/// The hash with `f` set to `v` (see `hash_put`).
pub(crate) fn put_field(h: &mut Vec<(Vec<u8>, Vec<u8>)>, f: Vec<u8>, v: Vec<u8>) -> (was_new: bool)
    ensures
        pair_views(final(h)@) == hash_put(pair_views(old(h)@), f@, v@),
        was_new == (hash_get(pair_views(old(h)@), f@) is None),
{
    let ghost hv = pair_views(h@);
    let ghost fv = f@;
    let ghost vv = v@;
    let p = find_field(h, &f);
    if p < h.len() {
        h.set(p, (f, v));
        proof {
            assert(pair_views(h@) =~= hv.update(p as int, (fv, vv)));
        }
        false
    } else {
        h.push((f, v));
        proof {
            assert(pair_views(h@) =~= hv.push((fv, vv)));
        }
        true
    }
}

/// The hash without `f` (see `hash_del`); tells whether it was present.
pub(crate) fn remove_field(h: &mut Vec<(Vec<u8>, Vec<u8>)>, f: &Vec<u8>) -> (was_present: bool)
    ensures
        pair_views(final(h)@) == hash_del(pair_views(old(h)@), f@),
        was_present == (hash_get(pair_views(old(h)@), f@) is Some),
{
    let ghost hv = pair_views(h@);
    let p = find_field(h, f);
    if p < h.len() {
        h.remove(p);
        proof {
            assert(pair_views(h@) =~= hv.remove(p as int));
        }
        true
    } else {
        false
    }
}

/// The answer for a field's value.
pub(crate) fn value_answer(v: Option<&Vec<u8>>) -> (r: RespValue)
    ensures
        crate::command::reply::value_models(
            r,
            value_reply(
                match v {
                    Some(b) => Some(b@),
                    None => None,
                },
            ),
        ),
{
    match v {
        Some(b) => RespValue::bulk_string(copy_bytes(b)),
        None => RespValue::Null,
    }
}

/// Handles the hash commands against a keyspace.
#[derive(Debug)]
pub struct HashCommands {
    storage: StorageEngine,
}

impl View for HashCommands {
    type V = Seq<DbView>;

    closed spec fn view(&self) -> Seq<DbView> {
        self.storage@
    }
}

impl HashCommands {
    /// The handler's keyspace is well formed.
    pub closed spec fn wf(&self) -> bool {
        self.storage.wf()
    }

    /// A handler over `storage`.
    pub fn new(storage: StorageEngine) -> (r: Self)
        requires
            storage.wf(),
        ensures
            r.wf(),
            r@ == storage@,
    {
        HashCommands { storage }
    }

    /// Gives the keyspace back.
    pub fn into_storage(self) -> (r: StorageEngine)
        requires
            self.wf(),
        ensures
            r.wf(),
            r@ == self@,
    {
        self.storage
    }

    /// The hash `args[0]` names, or the empty hash; the errors for a bad
    /// database or a value of another kind.
    fn load(&self, args: &[Vec<u8>], db: usize, now: u64) -> (r: Result<Vec<(Vec<u8>, Vec<u8>)>, AikvError>)
        requires
            self.wf(),
            args@.len() >= 1,
        ensures
            !db_ok(self@, db as int) ==> (r matches Err(e) && crate::command::reply::error_models(e, Failure::DbRange)),
            db_ok(self@, db as int) ==> {
                let t = hash_lookup(self@[db as int], key_of(args@[0]@), now);
                if t is WrongType {
                    (r matches Err(e) && crate::command::reply::error_models(e, Failure::WrongType))
                } else {
                    (r matches Ok(h) && pair_views(h@) == hash_or_empty(t))
                }
            },
    {
        if db >= self.storage.num_dbs() {
            return Err(db_range_error());
        }
        let key = arg_text(&args[0]);
        match self.storage.get_hash(db, key.as_str(), now) {
            Ok(Some(h)) => Ok(h),
            Ok(None) => {
                let h: Vec<(Vec<u8>, Vec<u8>)> = Vec::new();
                proof {
                    assert(pair_views(h@) =~= Seq::<FieldPair>::empty());
                }
                Ok(h)
            },
            Err(e) => Err(e),
        }
    }

    /// HSET (or HMSET when `ok_answer`) at time `now`.
    pub fn hset_at(&mut self, args: &[Vec<u8>], db: usize, now: u64, ok_answer: bool) -> (r: Result<RespValue, AikvError>)
        requires
            old(self).wf(),
        ensures
            final(self).wf(),
            outcome_holds(hset_spec(old(self)@, db as int, arg_views(args@), now, ok_answer), r, final(self)@),
    {
        proof {
            lemma_arg_views(args@);
        }
        if args.len() < 3 || args.len() % 2 == 0 {
            return Err(arity_error(
                if ok_answer {
                    "HMSET"
                } else {
                    "HSET"
                },
            ));
        }
        let ghost a = arg_views(args@);
        let mut h = match self.load(args, db, now) {
            Ok(h) => h,
            Err(e) => {
                return Err(e);
            },
        };
        let ghost h0 = pair_views(h@);
        let n = (args.len() - 1) / 2;
        let mut count: usize = 0;
        let mut k: usize = 0;
        while k < n
            invariant
                k <= n,
                n == (args@.len() - 1) / 2,
                args@.len() >= 3,
                args@.len() == args.len(),
                args@.len() % 2 == 1,
                a == arg_views(args@),
                a.len() == args@.len(),
                forall|i: int| 0 <= i < args@.len() ==> #[trigger] a[i] == args@[i]@,
                (pair_views(h@), count as int) == hset_fold(h0, a, k as nat),
                count <= k,
            decreases n - k,
        {
            proof {
                lemma_pair_index(k as int, n as int, args@.len() as int);
            }
            let text = arg_text(&args[2 * k + 1]);
            let f = text_bytes(text.as_str());
            let v = copy_bytes(&args[2 * k + 2]);
            let fresh = put_field(&mut h, f, v);
            if fresh {
                count = count + 1;
            }
            k = k + 1;
            proof {
                assert(2 * (k as int) - 1 == 2 * (k - 1) + 1);
            }
        }
        let key = arg_text(&args[0]);
        self.storage.set_value(db, key, StoredValue::Hash(h), None);
        if ok_answer {
            Ok(RespValue::ok())
        } else {
            Ok(RespValue::integer(count as i64))
        }
    }

    /// HSET key field value [field value ...]: sets the fields; answers how
    /// many were new.
    pub fn hset(&mut self, args: &[Vec<u8>], db: usize) -> (r: Result<RespValue, AikvError>)
        requires
            old(self).wf(),
        ensures
            final(self).wf(),
            exists|now: u64| outcome_holds(hset_spec(old(self)@, db as int, arg_views(args@), now, false), r, final(self)@),
    {
        let now = unix_time_millis();
        self.hset_at(args, db, now, false)
    }

    /// HMSET key field value [field value ...]: sets the fields; answers OK.
    pub fn hmset(&mut self, args: &[Vec<u8>], db: usize) -> (r: Result<RespValue, AikvError>)
        requires
            old(self).wf(),
        ensures
            final(self).wf(),
            exists|now: u64| outcome_holds(hset_spec(old(self)@, db as int, arg_views(args@), now, true), r, final(self)@),
    {
        let now = unix_time_millis();
        self.hset_at(args, db, now, true)
    }

    /// HSETNX at time `now`.
    pub fn hsetnx_at(&mut self, args: &[Vec<u8>], db: usize, now: u64) -> (r: Result<RespValue, AikvError>)
        requires
            old(self).wf(),
        ensures
            final(self).wf(),
            outcome_holds(hsetnx_spec(old(self)@, db as int, arg_views(args@), now), r, final(self)@),
    {
        proof {
            lemma_arg_views(args@);
        }
        if args.len() != 3 {
            return Err(arity_error("HSETNX"));
        }
        let mut h = match self.load(args, db, now) {
            Ok(h) => h,
            Err(e) => {
                return Err(e);
            },
        };
        let text = arg_text(&args[1]);
        let f = text_bytes(text.as_str());
        let p = find_field(&h, &f);
        if p < h.len() {
            return Ok(RespValue::integer(0));
        }
        let v = copy_bytes(&args[2]);
        put_field(&mut h, f, v);
        let key = arg_text(&args[0]);
        self.storage.set_value(db, key, StoredValue::Hash(h), None);
        Ok(RespValue::integer(1))
    }

    /// HSETNX key field value: sets the field only when it is absent;
    /// answers 1 when it did.
    pub fn hsetnx(&mut self, args: &[Vec<u8>], db: usize) -> (r: Result<RespValue, AikvError>)
        requires
            old(self).wf(),
        ensures
            final(self).wf(),
            exists|now: u64| outcome_holds(hsetnx_spec(old(self)@, db as int, arg_views(args@), now), r, final(self)@),
    {
        let now = unix_time_millis();
        self.hsetnx_at(args, db, now)
    }

    /// HGET at time `now`.
    pub fn hget_at(&self, args: &[Vec<u8>], db: usize, now: u64) -> (r: Result<RespValue, AikvError>)
        requires
            self.wf(),
        ensures
            outcome_holds(hget_spec(self@, db as int, arg_views(args@), now), r, self@),
    {
        proof {
            lemma_arg_views(args@);
        }
        if args.len() != 2 {
            return Err(arity_error("HGET"));
        }
        let h = match self.load(args, db, now) {
            Ok(h) => h,
            Err(e) => {
                return Err(e);
            },
        };
        let text = arg_text(&args[1]);
        let f = text_bytes(text.as_str());
        let p = find_field(&h, &f);
        if p < h.len() {
            Ok(value_answer(Some(&h[p].1)))
        } else {
            Ok(value_answer(None))
        }
    }

    /// HGET key field: the field's value, or the null value.
    pub fn hget(&self, args: &[Vec<u8>], db: usize) -> (r: Result<RespValue, AikvError>)
        requires
            self.wf(),
        ensures
            exists|now: u64| outcome_holds(hget_spec(self@, db as int, arg_views(args@), now), r, self@),
    {
        let now = unix_time_millis();
        self.hget_at(args, db, now)
    }

    /// HMGET at time `now`.
    pub fn hmget_at(&self, args: &[Vec<u8>], db: usize, now: u64) -> (r: Result<RespValue, AikvError>)
        requires
            self.wf(),
        ensures
            outcome_holds(hmget_spec(self@, db as int, arg_views(args@), now), r, self@),
    {
        proof {
            lemma_arg_views(args@);
        }
        if args.len() < 2 {
            return Err(arity_error("HMGET"));
        }
        let h = match self.load(args, db, now) {
            Ok(h) => h,
            Err(e) => {
                return Err(e);
            },
        };
        let ghost a = arg_views(args@);
        let ghost hv = pair_views(h@);
        let ghost want = Seq::new((a.len() - 1) as nat, |i: int| value_reply(hash_get(hv, field_of(a[i + 1]))));
        let mut items: Vec<RespValue> = Vec::new();
        let mut i: usize = 1;
        while i < args.len()
            invariant
                1 <= i <= args@.len(),
                args@.len() == args.len(),
                a == arg_views(args@),
                a.len() == args@.len(),
                forall|j: int| 0 <= j < args@.len() ==> #[trigger] a[j] == args@[j]@,
                hv == pair_views(h@),
                want == Seq::new((a.len() - 1) as nat, |j: int| value_reply(hash_get(hv, field_of(a[j + 1])))),
                items@.len() == i - 1,
                forall|j: int| 0 <= j < i - 1 ==> crate::command::reply::value_models(#[trigger] items@[j], want[j]),
            decreases args.len() - i,
        {
            let text = arg_text(&args[i]);
            let f = text_bytes(text.as_str());
            let p = find_field(&h, &f);
            let item = if p < h.len() {
                value_answer(Some(&h[p].1))
            } else {
                value_answer(None)
            };
            items.push(item);
            i = i + 1;
        }
        Ok(RespValue::array(items))
    }

    /// HMGET key field [field ...]: each field's value, or the null value.
    pub fn hmget(&self, args: &[Vec<u8>], db: usize) -> (r: Result<RespValue, AikvError>)
        requires
            self.wf(),
        ensures
            exists|now: u64| outcome_holds(hmget_spec(self@, db as int, arg_views(args@), now), r, self@),
    {
        let now = unix_time_millis();
        self.hmget_at(args, db, now)
    }

    /// HEXISTS at time `now`.
    pub fn hexists_at(&self, args: &[Vec<u8>], db: usize, now: u64) -> (r: Result<RespValue, AikvError>)
        requires
            self.wf(),
        ensures
            outcome_holds(hexists_spec(self@, db as int, arg_views(args@), now), r, self@),
    {
        proof {
            lemma_arg_views(args@);
        }
        if args.len() != 2 {
            return Err(arity_error("HEXISTS"));
        }
        let h = match self.load(args, db, now) {
            Ok(h) => h,
            Err(e) => {
                return Err(e);
            },
        };
        let text = arg_text(&args[1]);
        let f = text_bytes(text.as_str());
        let p = find_field(&h, &f);
        Ok(RespValue::integer(
            if p < h.len() {
                1
            } else {
                0
            },
        ))
    }

    /// HEXISTS key field: 1 when the hash has the field, else 0.
    pub fn hexists(&self, args: &[Vec<u8>], db: usize) -> (r: Result<RespValue, AikvError>)
        requires
            self.wf(),
        ensures
            exists|now: u64| outcome_holds(hexists_spec(self@, db as int, arg_views(args@), now), r, self@),
    {
        let now = unix_time_millis();
        self.hexists_at(args, db, now)
    }

    /// HLEN at time `now`.
    pub fn hlen_at(&self, args: &[Vec<u8>], db: usize, now: u64) -> (r: Result<RespValue, AikvError>)
        requires
            self.wf(),
        ensures
            outcome_holds(hlen_spec(self@, db as int, arg_views(args@), now), r, self@),
    {
        if args.len() != 1 {
            return Err(arity_error("HLEN"));
        }
        let h = match self.load(args, db, now) {
            Ok(h) => h,
            Err(e) => {
                return Err(e);
            },
        };
        Ok(RespValue::integer(h.len() as i64))
    }

    /// HLEN key: the number of fields.
    pub fn hlen(&self, args: &[Vec<u8>], db: usize) -> (r: Result<RespValue, AikvError>)
        requires
            self.wf(),
        ensures
            exists|now: u64| outcome_holds(hlen_spec(self@, db as int, arg_views(args@), now), r, self@),
    {
        let now = unix_time_millis();
        self.hlen_at(args, db, now)
    }

    /// The fields (`which` 0), values (1), or both alternating (2) of `h`.
    pub(crate) fn listing(h: &Vec<(Vec<u8>, Vec<u8>)>, which: u8) -> (r: RespValue)
        requires
            which <= 2,
        ensures
            crate::command::reply::value_models(
                r,
                if which == 0 {
                    Reply::Array(pair_views(h@).map_values(|p: FieldPair| Reply::Bulk(p.0)))
                } else if which == 1 {
                    Reply::Array(pair_views(h@).map_values(|p: FieldPair| Reply::Bulk(p.1)))
                } else {
                    Reply::Array(flat_pairs(pair_views(h@)))
                },
            ),
    {
        let ghost hv = pair_views(h@);
        let ghost want = if which == 0 {
            hv.map_values(|p: FieldPair| Reply::Bulk(p.0))
        } else if which == 1 {
            hv.map_values(|p: FieldPair| Reply::Bulk(p.1))
        } else {
            flat_pairs(hv)
        };
        let mut items: Vec<RespValue> = Vec::new();
        let mut i: usize = 0;
        while i < h.len()
            invariant
                i <= h@.len(),
                hv == pair_views(h@),
                which <= 2,
                want == (if which == 0 {
                    hv.map_values(|p: FieldPair| Reply::Bulk(p.0))
                } else if which == 1 {
                    hv.map_values(|p: FieldPair| Reply::Bulk(p.1))
                } else {
                    flat_pairs(hv)
                }),
                items@.len() == (if which == 2 {
                    2 * i
                } else {
                    i as int
                }),
                forall|j: int| 0 <= j < items@.len() ==> crate::command::reply::value_models(#[trigger] items@[j], want[j]),
            decreases h.len() - i,
        {
            if which != 1 {
                items.push(RespValue::bulk_string(copy_bytes(&h[i].0)));
            }
            if which != 0 {
                items.push(RespValue::bulk_string(copy_bytes(&h[i].1)));
            }
            proof {
                if which == 2 {
                    assert((2 * i) / 2 == i);
                    assert((2 * i + 1) / 2 == i);
                    assert((2 * i) % 2 == 0);
                    assert((2 * i + 1) % 2 == 1);
                }
            }
            i = i + 1;
        }
        RespValue::array(items)
    }

    /// HKEYS (`which` 0), HVALS (1) or HGETALL (2) at time `now`.
    fn listing_at(&self, args: &[Vec<u8>], db: usize, now: u64, which: u8) -> (r: Result<RespValue, AikvError>)
        requires
            self.wf(),
            which <= 2,
        ensures
            outcome_holds(
                if which == 0 {
                    hkeys_spec(self@, db as int, arg_views(args@), now)
                } else if which == 1 {
                    hvals_spec(self@, db as int, arg_views(args@), now)
                } else {
                    hgetall_spec(self@, db as int, arg_views(args@), now)
                },
                r,
                self@,
            ),
    {
        if args.len() != 1 {
            return Err(arity_error(
                if which == 0 {
                    "HKEYS"
                } else if which == 1 {
                    "HVALS"
                } else {
                    "HGETALL"
                },
            ));
        }
        let h = match self.load(args, db, now) {
            Ok(h) => h,
            Err(e) => {
                return Err(e);
            },
        };
        Ok(Self::listing(&h, which))
    }

    /// HKEYS at time `now`.
    pub fn hkeys_at(&self, args: &[Vec<u8>], db: usize, now: u64) -> (r: Result<RespValue, AikvError>)
        requires
            self.wf(),
        ensures
            outcome_holds(hkeys_spec(self@, db as int, arg_views(args@), now), r, self@),
    {
        self.listing_at(args, db, now, 0)
    }

    /// HKEYS key: the fields, in the order they were first set.
    pub fn hkeys(&self, args: &[Vec<u8>], db: usize) -> (r: Result<RespValue, AikvError>)
        requires
            self.wf(),
        ensures
            exists|now: u64| outcome_holds(hkeys_spec(self@, db as int, arg_views(args@), now), r, self@),
    {
        let now = unix_time_millis();
        self.hkeys_at(args, db, now)
    }

    /// HVALS at time `now`.
    pub fn hvals_at(&self, args: &[Vec<u8>], db: usize, now: u64) -> (r: Result<RespValue, AikvError>)
        requires
            self.wf(),
        ensures
            outcome_holds(hvals_spec(self@, db as int, arg_views(args@), now), r, self@),
    {
        self.listing_at(args, db, now, 1)
    }

    /// HVALS key: the values, in field order.
    pub fn hvals(&self, args: &[Vec<u8>], db: usize) -> (r: Result<RespValue, AikvError>)
        requires
            self.wf(),
        ensures
            exists|now: u64| outcome_holds(hvals_spec(self@, db as int, arg_views(args@), now), r, self@),
    {
        let now = unix_time_millis();
        self.hvals_at(args, db, now)
    }

    /// HGETALL at time `now`.
    pub fn hgetall_at(&self, args: &[Vec<u8>], db: usize, now: u64) -> (r: Result<RespValue, AikvError>)
        requires
            self.wf(),
        ensures
            outcome_holds(hgetall_spec(self@, db as int, arg_views(args@), now), r, self@),
    {
        self.listing_at(args, db, now, 2)
    }

    /// HGETALL key: fields and values, alternating.
    pub fn hgetall(&self, args: &[Vec<u8>], db: usize) -> (r: Result<RespValue, AikvError>)
        requires
            self.wf(),
        ensures
            exists|now: u64| outcome_holds(hgetall_spec(self@, db as int, arg_views(args@), now), r, self@),
    {
        let now = unix_time_millis();
        self.hgetall_at(args, db, now)
    }

    /// HDEL at time `now`.
    pub fn hdel_at(&mut self, args: &[Vec<u8>], db: usize, now: u64) -> (r: Result<RespValue, AikvError>)
        requires
            old(self).wf(),
        ensures
            final(self).wf(),
            outcome_holds(hdel_spec(old(self)@, db as int, arg_views(args@), now), r, final(self)@),
    {
        proof {
            lemma_arg_views(args@);
        }
        if args.len() < 2 {
            return Err(arity_error("HDEL"));
        }
        if db >= self.storage.num_dbs() {
            return Err(db_range_error());
        }
        let key = arg_text(&args[0]);
        let mut h = match self.storage.get_hash(db, key.as_str(), now) {
            Ok(Some(h)) => h,
            Ok(None) => {
                return Ok(RespValue::integer(0));
            },
            Err(e) => {
                return Err(e);
            },
        };
        let ghost a = arg_views(args@);
        let ghost h0 = pair_views(h@);
        let mut count: usize = 0;
        let mut i: usize = 1;
        while i < args.len()
            invariant
                1 <= i <= args@.len(),
                args@.len() == args.len(),
                a == arg_views(args@),
                a.len() == args@.len(),
                forall|j: int| 0 <= j < args@.len() ==> #[trigger] a[j] == args@[j]@,
                (pair_views(h@), count as int) == hdel_fold(h0, a, (i - 1) as nat),
                count < i,
            decreases args.len() - i,
        {
            let text = arg_text(&args[i]);
            let f = text_bytes(text.as_str());
            if remove_field(&mut h, &f) {
                count = count + 1;
            }
            i = i + 1;
        }
        if h.len() == 0 {
            self.storage.delete_from_db(db, key.as_str(), now);
        } else {
            self.storage.set_value(db, key, StoredValue::Hash(h), None);
        }
        Ok(RespValue::integer(count as i64))
    }

    /// HDEL key field [field ...]: removes the fields; answers how many
    /// were present. A hash left empty is removed.
    pub fn hdel(&mut self, args: &[Vec<u8>], db: usize) -> (r: Result<RespValue, AikvError>)
        requires
            old(self).wf(),
        ensures
            final(self).wf(),
            exists|now: u64| outcome_holds(hdel_spec(old(self)@, db as int, arg_views(args@), now), r, final(self)@),
    {
        let now = unix_time_millis();
        self.hdel_at(args, db, now)
    }

    /// HINCRBY at time `now`.
    pub fn hincrby_at(&mut self, args: &[Vec<u8>], db: usize, now: u64) -> (r: Result<RespValue, AikvError>)
        requires
            old(self).wf(),
        ensures
            final(self).wf(),
            outcome_holds(hincrby_spec(old(self)@, db as int, arg_views(args@), now), r, final(self)@),
    {
        proof {
            lemma_arg_views(args@);
        }
        if args.len() != 3 {
            return Err(arity_error("HINCRBY"));
        }
        let inc = match arg_i64(&args[2]) {
            Some(v) => v,
            None => {
                return Err(invalid_error("invalid increment"));
            },
        };
        let mut h = match self.load(args, db, now) {
            Ok(h) => h,
            Err(e) => {
                return Err(e);
            },
        };
        let text = arg_text(&args[1]);
        let f = text_bytes(text.as_str());
        let p = find_field(&h, &f);
        let cur: i64 = if p < h.len() {
            match arg_i64(&h[p].1) {
                Some(c) => c,
                None => {
                    return Err(invalid_error("hash value is not an integer"));
                },
            }
        } else {
            0
        };
        let next = match cur.checked_add(inc) {
            Some(n) => n,
            None => {
                return Err(invalid_error("ERR increment or decrement would overflow"));
            },
        };
        put_field(&mut h, f, int_to_bytes(next));
        let key = arg_text(&args[0]);
        self.storage.set_value(db, key, StoredValue::Hash(h), None);
        Ok(RespValue::integer(next))
    }

    /// HINCRBY key field increment: adds to the integer the field holds (0
    /// when absent); answers the new value.
    pub fn hincrby(&mut self, args: &[Vec<u8>], db: usize) -> (r: Result<RespValue, AikvError>)
        requires
            old(self).wf(),
        ensures
            final(self).wf(),
            exists|now: u64| outcome_holds(hincrby_spec(old(self)@, db as int, arg_views(args@), now), r, final(self)@),
    {
        let now = unix_time_millis();
        self.hincrby_at(args, db, now)
    }

    /// HSCAN at time `now`.
    pub fn hscan_at(&self, args: &[Vec<u8>], db: usize, now: u64) -> (r: Result<RespValue, AikvError>)
        requires
            self.wf(),
        ensures
            outcome_holds(hscan_spec(self@, db as int, arg_views(args@), now), r, self@),
    {
        proof {
            lemma_arg_views(args@);
        }
        if args.len() < 2 {
            return Err(arity_error("HSCAN"));
        }
        let cursor = match arg_usize(&args[1]) {
            Some(c) => c,
            None => {
                return Err(invalid_error("ERR invalid cursor"));
            },
        };
        let ghost a = arg_views(args@);
        let mut pattern: Option<String> = None;
        let mut count: usize = 10;
        let mut i: usize = 2;
        while i < args.len()
            invariant
                2 <= i <= args@.len(),
                args@.len() == args.len(),
                usize_arg(a[1]) == Some(cursor as nat),
                a == arg_views(args@),
                a.len() == args@.len(),
                forall|j: int| 0 <= j < args@.len() ==> #[trigger] a[j] == args@[j]@,
                hscan_options(a, 2, None, 10) == hscan_options(
                    a,
                    i as int,
                    match pattern {
                        Some(p) => Some(p@),
                        None => None,
                    },
                    count as nat,
                ),
            decreases args.len() - i,
        {
            let opt = arg_option(&args[i]);
            if str_eq(opt.as_str(), "MATCH") {
                if i + 1 >= args.len() {
                    return Err(invalid_error("ERR syntax error"));
                }
                pattern = Some(arg_text(&args[i + 1]));
            } else if str_eq(opt.as_str(), "COUNT") {
                if i + 1 >= args.len() {
                    return Err(invalid_error("ERR syntax error"));
                }
                count = match arg_usize(&args[i + 1]) {
                    Some(c) => if c == 0 {
                        1
                    } else {
                        c
                    },
                    None => {
                        return Err(invalid_error("ERR value is not an integer"));
                    },
                };
            } else {
                let mut msg = string_of("ERR unknown option '");
                push_str(&mut msg, opt.as_str());
                push_str(&mut msg, "'");
                return Err(AikvError::InvalidArgument(msg));
            }
            i = i + 2;
        }
        let h = match self.load(args, db, now) {
            Ok(h) => h,
            Err(e) => {
                return Err(e);
            },
        };
        let sorted = sort_by_field(&h);
        let filtered = match &pattern {
            Some(p) => filter_pairs(&sorted, p.as_str()),
            None => sorted,
        };
        let total = filtered.len();
        let end = if count >= total || cursor >= total - count {
            total
        } else {
            cursor + count
        };
        let next: usize = if end >= total {
            0
        } else {
            end
        };
        let page = if cursor >= total {
            let v: Vec<(Vec<u8>, Vec<u8>)> = Vec::new();
            proof {
                assert(pair_views(v@) =~= Seq::<FieldPair>::empty());
            }
            v
        } else {
            copy_pair_range(&filtered, cursor, end)
        };
        let head = RespValue::bulk_string(text_bytes(u64_to_decimal(next as u64).as_str()));
        let inner = Self::listing(&page, 2);
        let ghost want = seq![
            Reply::Bulk(encode_utf8(crate::text::decimal_spec(next as nat))),
            Reply::Array(flat_pairs(pair_views(page@))),
        ];
        let mut items: Vec<RespValue> = Vec::new();
        items.push(head);
        items.push(inner);
        proof {
            assert forall|j: int| 0 <= j < 2 implies crate::command::reply::value_models(#[trigger] items@[j], want[j]) by {}
        }
        Ok(RespValue::array(items))
    }

    /// HSCAN key cursor [MATCH pattern] [COUNT count]: the next page of
    /// fields and values, in field order, and the cursor that follows it.
    pub fn hscan(&self, args: &[Vec<u8>], db: usize) -> (r: Result<RespValue, AikvError>)
        requires
            self.wf(),
        ensures
            exists|now: u64| outcome_holds(hscan_spec(self@, db as int, arg_views(args@), now), r, self@),
    {
        let now = unix_time_millis();
        self.hscan_at(args, db, now)
    }
}

} // verus!
