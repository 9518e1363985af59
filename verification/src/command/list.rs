//! The list commands: sequences of byte strings stored under a key, head
//! first.
use crate::command::reply::{
    arg_i64, arg_option, arg_text, arg_usize, arg_views, arity_error, db_range_error, int_arg, invalid_error, key_of,
    lemma_arg_views, option_of, outcome_holds, usize_arg, Failure, Reply,
};
use crate::command::string::db_ok;
use crate::error::AikvError;
use crate::protocol::RespValue;
use crate::storage::{
    bytes_eq, bytes_views, copy_bytes, drop_key, list_lookup, put_value, unix_time_millis, DbView, StorageEngine,
    StoredValue, Typed, ValueView,
};
use crate::text::str_eq;
use vstd::prelude::*;

verus! {

/// The list a lookup gives, the empty one when the key holds nothing.
pub open spec fn list_or_empty(t: Typed<Seq<Seq<u8>>>) -> Seq<Seq<u8>> {
    match t {
        Typed::Found(l) => l,
        _ => Seq::empty(),
    }
}

/// Bulk-string answers for each element.
pub open spec fn bulks(l: Seq<Seq<u8>>) -> Seq<Reply> {
    l.map_values(|b: Seq<u8>| Reply::Bulk(b))
}

/// The smaller of two integers.
pub open spec fn min_int(a: int, b: int) -> int {
    if a <= b {
        a
    } else {
        b
    }
}

/// The larger of two integers.
pub open spec fn max_int(a: int, b: int) -> int {
    if a >= b {
        a
    } else {
        b
    }
}

/// The positions `[from, to)` that `start` and `stop` select in a list of
/// `len` elements: negative indices count from the end, and an empty
/// selection is `(0, 0)`.
pub open spec fn range_bounds(len: int, start: int, stop: int) -> (int, int) {
    if len == 0 {
        (0, 0)
    } else {
        let s = if start < 0 {
            max_int(len + start, 0)
        } else {
            min_int(start, len)
        };
        let e = if stop < 0 {
            max_int(len + stop, 0)
        } else {
            min_int(stop, len - 1)
        };
        if s > e || s >= len {
            (0, 0)
        } else {
            (s, e + 1)
        }
    }
}

/// The elements that `start` and `stop` select.
pub open spec fn list_range(l: Seq<Seq<u8>>, start: int, stop: int) -> Seq<Seq<u8>> {
    let b = range_bounds(l.len() as int, start, stop);
    l.subrange(b.0, b.1)
}

/// A position counted from the end when negative.
pub open spec fn list_pos(len: int, index: int) -> int {
    if index < 0 {
        len + index
    } else {
        index
    }
}

/// LPUSH (`left`) or RPUSH: the elements go to the head (each before the
/// previous one) or the tail; answers the new length.
pub open spec fn push_spec(m: Seq<DbView>, db: int, a: Seq<Seq<u8>>, now: u64, left: bool) -> (Reply, Seq<DbView>) {
    let name = if left {
        "LPUSH"@
    } else {
        "RPUSH"@
    };
    if a.len() < 2 {
        (Reply::Fail(Failure::Arity(name)), m)
    } else if !db_ok(m, db) {
        (Reply::Fail(Failure::DbRange), m)
    } else {
        let key = key_of(a[0]);
        let t = list_lookup(m[db], key, now);
        if t is WrongType {
            (Reply::Fail(Failure::WrongType), m)
        } else {
            let l = list_or_empty(t);
            let elems = a.subrange(1, a.len() as int);
            let nl = if left {
                elems.reverse() + l
            } else {
                l + elems
            };
            (Reply::Int(nl.len() as int), put_value(m, db, key, ValueView::List(nl)))
        }
    }
}

/// The keyspace after a list is stored back: removed when empty.
pub open spec fn store_list(m: Seq<DbView>, db: int, key: Seq<char>, l: Seq<Seq<u8>>) -> Seq<DbView> {
    if l.len() == 0 {
        drop_key(m, db, key)
    } else {
        put_value(m, db, key, ValueView::List(l))
    }
}

/// LPOP (`left`) or RPOP key [count]: removes up to `count` (default 1)
/// elements from the head or the tail.
pub open spec fn pop_spec(m: Seq<DbView>, db: int, a: Seq<Seq<u8>>, now: u64, left: bool) -> (Reply, Seq<DbView>) {
    let name = if left {
        "LPOP"@
    } else {
        "RPOP"@
    };
    if a.len() == 0 {
        (Reply::Fail(Failure::Arity(name)), m)
    } else {
        let count = if a.len() > 1 {
            usize_arg(a[1])
        } else {
            Some(1nat)
        };
        match count {
            None => (Reply::Fail(Failure::Invalid("invalid count"@)), m),
            Some(c) => if !db_ok(m, db) {
                (Reply::Fail(Failure::DbRange), m)
            } else {
                let key = key_of(a[0]);
                match list_lookup(m[db], key, now) {
                    Typed::WrongType => (Reply::Fail(Failure::WrongType), m),
                    Typed::Absent => (Reply::Nil, m),
                    Typed::Found(l) => {
                        let k = min_int(c as int, l.len() as int);
                        let vals = if left {
                            l.take(k)
                        } else {
                            l.skip(l.len() - k).reverse()
                        };
                        let rest = if left {
                            l.skip(k)
                        } else {
                            l.take(l.len() - k)
                        };
                        (
                            if vals.len() == 0 {
                                Reply::Nil
                            } else if c == 1 {
                                Reply::Bulk(vals[0])
                            } else {
                                Reply::Array(bulks(vals))
                            },
                            store_list(m, db, key, rest),
                        )
                    },
                }
            },
        }
    }
}

/// A read-only list command: checks the database and the key's kind, then
/// answers from the list (empty when absent).
pub open spec fn list_read(m: Seq<DbView>, db: int, a: Seq<Seq<u8>>, now: u64, answer: spec_fn(Seq<Seq<u8>>) -> Reply) -> (
    Reply,
    Seq<DbView>,
) {
    if !db_ok(m, db) {
        (Reply::Fail(Failure::DbRange), m)
    } else {
        let t = list_lookup(m[db], key_of(a[0]), now);
        if t is WrongType {
            (Reply::Fail(Failure::WrongType), m)
        } else {
            (answer(list_or_empty(t)), m)
        }
    }
}

/// LLEN key
pub open spec fn llen_spec(m: Seq<DbView>, db: int, a: Seq<Seq<u8>>, now: u64) -> (Reply, Seq<DbView>) {
    if a.len() != 1 {
        (Reply::Fail(Failure::Arity("LLEN"@)), m)
    } else {
        list_read(m, db, a, now, |l: Seq<Seq<u8>>| Reply::Int(l.len() as int))
    }
}

/// LRANGE key start stop
pub open spec fn lrange_spec(m: Seq<DbView>, db: int, a: Seq<Seq<u8>>, now: u64) -> (Reply, Seq<DbView>) {
    if a.len() != 3 {
        (Reply::Fail(Failure::Arity("LRANGE"@)), m)
    } else {
        match (int_arg(a[1]), int_arg(a[2])) {
            (None, _) => (Reply::Fail(Failure::Invalid("invalid start index"@)), m),
            (Some(_), None) => (Reply::Fail(Failure::Invalid("invalid stop index"@)), m),
            (Some(start), Some(stop)) => list_read(
                m,
                db,
                a,
                now,
                |l: Seq<Seq<u8>>| Reply::Array(bulks(list_range(l, start, stop))),
            ),
        }
    }
}

/// LINDEX key index
pub open spec fn lindex_spec(m: Seq<DbView>, db: int, a: Seq<Seq<u8>>, now: u64) -> (Reply, Seq<DbView>) {
    if a.len() != 2 {
        (Reply::Fail(Failure::Arity("LINDEX"@)), m)
    } else {
        match int_arg(a[1]) {
            None => (Reply::Fail(Failure::Invalid("invalid index"@)), m),
            Some(index) => list_read(
                m,
                db,
                a,
                now,
                |l: Seq<Seq<u8>>|
                    {
                        let p = list_pos(l.len() as int, index);
                        if 0 <= p < l.len() {
                            Reply::Bulk(l[p])
                        } else {
                            Reply::Nil
                        }
                    },
            ),
        }
    }
}

/// LSET key index element
pub open spec fn lset_spec(m: Seq<DbView>, db: int, a: Seq<Seq<u8>>, now: u64) -> (Reply, Seq<DbView>) {
    if a.len() != 3 {
        (Reply::Fail(Failure::Arity("LSET"@)), m)
    } else {
        match int_arg(a[1]) {
            None => (Reply::Fail(Failure::Invalid("invalid index"@)), m),
            Some(index) => if !db_ok(m, db) {
                (Reply::Fail(Failure::DbRange), m)
            } else {
                let key = key_of(a[0]);
                match list_lookup(m[db], key, now) {
                    Typed::WrongType => (Reply::Fail(Failure::WrongType), m),
                    Typed::Absent => (Reply::Fail(Failure::Invalid("no such key"@)), m),
                    Typed::Found(l) => {
                        let p = list_pos(l.len() as int, index);
                        if 0 <= p < l.len() {
                            (Reply::Simple("OK"@), put_value(m, db, key, ValueView::List(l.update(p, a[2]))))
                        } else {
                            (Reply::Fail(Failure::Invalid("index out of range"@)), m)
                        }
                    },
                }
            },
        }
    }
}

/// `l` without its first `k` elements equal to `e`, with the number
/// removed.
pub open spec fn rem_head(l: Seq<Seq<u8>>, e: Seq<u8>, k: nat) -> (Seq<Seq<u8>>, nat)
    decreases l.len(),
{
    if l.len() == 0 {
        (l, 0)
    } else if k > 0 && l[0] == e {
        let r = rem_head(l.drop_first(), e, (k - 1) as nat);
        (r.0, r.1 + 1)
    } else {
        let r = rem_head(l.drop_first(), e, k);
        (seq![l[0]] + r.0, r.1)
    }
}

/// How many matches LREM may remove from a list of `len` elements: all
/// for a count of 0, else at most the count's magnitude.
pub open spec fn rem_limit(count: int, len: nat) -> nat {
    if count == 0 {
        len
    } else if count > 0 {
        min_int(count, len as int) as nat
    } else {
        min_int(-count, len as int) as nat
    }
}

/// LREM's result: matches removed from the head when the count is not
/// negative, from the tail otherwise.
pub open spec fn lrem_result(l: Seq<Seq<u8>>, e: Seq<u8>, count: int) -> (Seq<Seq<u8>>, nat) {
    let k = rem_limit(count, l.len());
    if count >= 0 {
        rem_head(l, e, k)
    } else {
        let r = rem_head(l.reverse(), e, k);
        (r.0.reverse(), r.1)
    }
}

/// LREM key count element
pub open spec fn lrem_spec(m: Seq<DbView>, db: int, a: Seq<Seq<u8>>, now: u64) -> (Reply, Seq<DbView>) {
    if a.len() != 3 {
        (Reply::Fail(Failure::Arity("LREM"@)), m)
    } else {
        match int_arg(a[1]) {
            None => (Reply::Fail(Failure::Invalid("invalid count"@)), m),
            Some(count) => if !db_ok(m, db) {
                (Reply::Fail(Failure::DbRange), m)
            } else {
                let key = key_of(a[0]);
                match list_lookup(m[db], key, now) {
                    Typed::WrongType => (Reply::Fail(Failure::WrongType), m),
                    Typed::Absent => (Reply::Int(0), m),
                    Typed::Found(l) => {
                        let r = lrem_result(l, a[2], count);
                        (Reply::Int(r.1 as int), store_list(m, db, key, r.0))
                    },
                }
            },
        }
    }
}

/// LTRIM key start stop: keeps the selected elements; a list left empty is
/// removed.
pub open spec fn ltrim_spec(m: Seq<DbView>, db: int, a: Seq<Seq<u8>>, now: u64) -> (Reply, Seq<DbView>) {
    if a.len() != 3 {
        (Reply::Fail(Failure::Arity("LTRIM"@)), m)
    } else {
        match (int_arg(a[1]), int_arg(a[2])) {
            (None, _) => (Reply::Fail(Failure::Invalid("invalid start index"@)), m),
            (Some(_), None) => (Reply::Fail(Failure::Invalid("invalid stop index"@)), m),
            (Some(start), Some(stop)) => if !db_ok(m, db) {
                (Reply::Fail(Failure::DbRange), m)
            } else {
                let key = key_of(a[0]);
                match list_lookup(m[db], key, now) {
                    Typed::WrongType => (Reply::Fail(Failure::WrongType), m),
                    Typed::Absent => (Reply::Simple("OK"@), m),
                    Typed::Found(l) => (Reply::Simple("OK"@), store_list(m, db, key, list_range(l, start, stop))),
                }
            },
        }
    }
}

/// LINSERT key BEFORE|AFTER pivot element: answers the new length, -1
/// when the pivot is absent, 0 when the key holds nothing.
pub open spec fn linsert_spec(m: Seq<DbView>, db: int, a: Seq<Seq<u8>>, now: u64) -> (Reply, Seq<DbView>) {
    if a.len() != 4 {
        (Reply::Fail(Failure::Arity("LINSERT"@)), m)
    } else {
        let pos = option_of(a[1]);
        if pos != "BEFORE"@ && pos != "AFTER"@ {
            (Reply::Fail(Failure::Invalid("ERR syntax error"@)), m)
        } else if !db_ok(m, db) {
            (Reply::Fail(Failure::DbRange), m)
        } else {
            let key = key_of(a[0]);
            match list_lookup(m[db], key, now) {
                Typed::WrongType => (Reply::Fail(Failure::WrongType), m),
                Typed::Absent => (Reply::Int(0), m),
                Typed::Found(l) => match l.index_of_first(a[2]) {
                    None => (Reply::Int(-1), m),
                    Some(i) => {
                        let at = if pos == "BEFORE"@ {
                            i
                        } else {
                            i + 1
                        };
                        let nl = l.insert(at, a[3]);
                        (Reply::Int(nl.len() as int), put_value(m, db, key, ValueView::List(nl)))
                    },
                },
            }
        }
    }
}

/// LMOVE source destination LEFT|RIGHT LEFT|RIGHT: moves one element from
/// an end of the source to an end of the destination.
pub open spec fn lmove_spec(m: Seq<DbView>, db: int, a: Seq<Seq<u8>>, now: u64) -> (Reply, Seq<DbView>) {
    if a.len() != 4 {
        (Reply::Fail(Failure::Arity("LMOVE"@)), m)
    } else {
        let from = option_of(a[2]);
        let to = option_of(a[3]);
        if from != "LEFT"@ && from != "RIGHT"@ {
            (Reply::Fail(Failure::Invalid("ERR syntax error"@)), m)
        } else if to != "LEFT"@ && to != "RIGHT"@ {
            (Reply::Fail(Failure::Invalid("ERR syntax error"@)), m)
        } else if !db_ok(m, db) {
            (Reply::Fail(Failure::DbRange), m)
        } else {
            let sk = key_of(a[0]);
            let dk = key_of(a[1]);
            match list_lookup(m[db], sk, now) {
                Typed::WrongType => (Reply::Fail(Failure::WrongType), m),
                Typed::Absent => (Reply::Nil, m),
                Typed::Found(src) => if src.len() == 0 {
                    (Reply::Nil, m)
                } else {
                    let elem = if from == "LEFT"@ {
                        src[0]
                    } else {
                        src.last()
                    };
                    let rest = if from == "LEFT"@ {
                        src.drop_first()
                    } else {
                        src.drop_last()
                    };
                    if sk == dk {
                        let d = if to == "LEFT"@ {
                            seq![elem] + rest
                        } else {
                            rest.push(elem)
                        };
                        (Reply::Bulk(elem), put_value(m, db, dk, ValueView::List(d)))
                    } else {
                        let dt = list_lookup(m[db], dk, now);
                        if dt is WrongType {
                            (Reply::Fail(Failure::WrongType), m)
                        } else {
                            let d0 = list_or_empty(dt);
                            let d = if to == "LEFT"@ {
                                seq![elem] + d0
                            } else {
                                d0.push(elem)
                            };
                            (Reply::Bulk(elem), put_value(store_list(m, db, sk, rest), db, dk, ValueView::List(d)))
                        }
                    }
                },
            }
        }
    }
}

// ---------------------------------------------------------------------------
// Helpers on byte-string vectors
// ---------------------------------------------------------------------------

/// A copy of `v[from..to]`.
pub(crate) fn copy_range_of(v: &[Vec<u8>], from: usize, to: usize) -> (r: Vec<Vec<u8>>)
    requires
        from <= to <= v@.len(),
    ensures
        bytes_views(r@) == bytes_views(v@).subrange(from as int, to as int),
{
    let mut r: Vec<Vec<u8>> = Vec::new();
    let mut i: usize = from;
    while i < to
        invariant
            from <= i <= to,
            to <= v@.len(),
            r@.len() == i - from,
            forall|j: int| 0 <= j < r@.len() ==> #[trigger] r@[j]@ == v@[from + j]@,
        decreases to - i,
    {
        let b = copy_bytes(&v[i]);
        let ghost before = r@;
        r.push(b);
        proof {
            assert forall|j: int| 0 <= j < r@.len() implies #[trigger] r@[j]@ == v@[from + j]@ by {
                if j < before.len() {
                    assert(r@[j] == before[j]);
                }
            }
        }
        i = i + 1;
    }
    proof {
        assert(bytes_views(r@) =~= bytes_views(v@).subrange(from as int, to as int));
    }
    r
}

/// A reversed copy of `v`.
pub(crate) fn reversed(v: &Vec<Vec<u8>>) -> (r: Vec<Vec<u8>>)
    ensures
        bytes_views(r@) == bytes_views(v@).reverse(),
{
    let ghost vv = bytes_views(v@);
    let mut r: Vec<Vec<u8>> = Vec::new();
    let mut i: usize = v.len();
    while i > 0
        invariant
            i <= v@.len(),
            vv == bytes_views(v@),
            r@.len() == v@.len() - i,
            forall|j: int| 0 <= j < r@.len() ==> #[trigger] r@[j]@ == vv[v@.len() - 1 - j],
        decreases i,
    {
        i = i - 1;
        let b = copy_bytes(&v[i]);
        let ghost before = r@;
        r.push(b);
        proof {
            assert forall|j: int| 0 <= j < r@.len() implies #[trigger] r@[j]@ == vv[v@.len() - 1 - j] by {
                if j < before.len() {
                    assert(r@[j] == before[j]);
                }
            }
        }
    }
    proof {
        assert(bytes_views(r@) =~= vv.reverse());
    }
    r
}

/// `a` followed by `b`.
fn concat(a: Vec<Vec<u8>>, b: Vec<Vec<u8>>) -> (r: Vec<Vec<u8>>)
    ensures
        bytes_views(r@) == bytes_views(a@) + bytes_views(b@),
{
    let mut r = a;
    let mut b = b;
    let ghost av = r@;
    let ghost bv = b@;
    r.append(&mut b);
    proof {
        assert(bytes_views(r@) =~= bytes_views(av) + bytes_views(bv));
    }
    r
}

/// Bulk-string answers for each element of `v`.
pub(crate) fn bulk_list(v: &Vec<Vec<u8>>) -> (r: RespValue)
    ensures
        crate::command::reply::value_models(r, Reply::Array(bulks(bytes_views(v@)))),
{
    let ghost want = bulks(bytes_views(v@));
    let mut items: Vec<RespValue> = Vec::new();
    let mut i: usize = 0;
    while i < v.len()
        invariant
            i <= v@.len(),
            want == bulks(bytes_views(v@)),
            items@.len() == i,
            forall|j: int| 0 <= j < i ==> crate::command::reply::value_models(#[trigger] items@[j], want[j]),
        decreases v.len() - i,
    {
        items.push(RespValue::bulk_string(copy_bytes(&v[i])));
        i = i + 1;
    }
    RespValue::array(items)
}

/// `v` without its first `k` elements equal to `e` (see `rem_head`).
fn remove_from_head(v: &Vec<Vec<u8>>, e: &Vec<u8>, k: usize) -> (r: (Vec<Vec<u8>>, usize))
    ensures
        (bytes_views(r.0@), r.1 as nat) == rem_head(bytes_views(v@), e@, k as nat),
{
    let ghost vv = bytes_views(v@);
    let mut out: Vec<Vec<u8>> = Vec::new();
    let mut left = k;
    let mut removed: usize = 0;
    let mut i: usize = 0;
    proof {
        assert(vv.skip(0) =~= vv);
        assert(bytes_views(out@) =~= Seq::<Seq<u8>>::empty());
        assert(Seq::<Seq<u8>>::empty() + rem_head(vv, e@, k as nat).0 =~= rem_head(vv, e@, k as nat).0);
    }
    while i < v.len()
        invariant
            i <= v@.len(),
            vv == bytes_views(v@),
            removed <= i,
            ({
                let r = rem_head(vv.skip(i as int), e@, left as nat);
                rem_head(vv, e@, k as nat) == (bytes_views(out@) + r.0, (removed + r.1) as nat)
            }),
        decreases v.len() - i,
    {
        let ghost tail = vv.skip(i as int);
        proof {
            assert(tail.drop_first() =~= vv.skip(i + 1));
            assert(tail[0] == vv[i as int]);
        }
        if left > 0 && bytes_eq(&v[i], e) {
            left = left - 1;
            removed = removed + 1;
        } else {
            let ghost before = bytes_views(out@);
            out.push(copy_bytes(&v[i]));
            proof {
                let r = rem_head(vv.skip(i + 1), e@, left as nat);
                assert(bytes_views(out@) =~= before.push(vv[i as int]));
                assert(before + (seq![vv[i as int]] + r.0) =~= bytes_views(out@) + r.0);
            }
        }
        i = i + 1;
    }
    proof {
        assert(vv.skip(v@.len() as int) =~= Seq::<Seq<u8>>::empty());
        assert(bytes_views(out@) + Seq::<Seq<u8>>::empty() =~= bytes_views(out@));
    }
    (out, removed)
}

/// The positions `[from, to)` that `start` and `stop` select in a list of
/// `len` elements (see `range_bounds`).
fn bounds(len: usize, start: i64, stop: i64) -> (r: (usize, usize))
    ensures
        r.0 <= r.1 <= len,
        (r.0 as int, r.1 as int) == range_bounds(len as int, start as int, stop as int),
{
    if len == 0 {
        return (0, 0);
    }
    let n = len as i128;
    let s0 = start as i128;
    let e0 = stop as i128;
    let s: i128 = if s0 < 0 {
        if n + s0 > 0 {
            n + s0
        } else {
            0
        }
    } else if s0 < n {
        s0
    } else {
        n
    };
    let e: i128 = if e0 < 0 {
        if n + e0 > 0 {
            n + e0
        } else {
            0
        }
    } else if e0 < n - 1 {
        e0
    } else {
        n - 1
    };
    if s > e || s >= n {
        (0, 0)
    } else {
        (s as usize, (e + 1) as usize)
    }
}

/// The position `index` names in a list of `len` elements, if in range.
fn position(len: usize, index: i64) -> (r: Option<usize>)
    ensures
        match r {
            Some(p) => p as int == list_pos(len as int, index as int) && p < len,
            None => !(0 <= list_pos(len as int, index as int) < len),
        },
{
    let n = len as i128;
    let i = index as i128;
    let p = if i < 0 {
        n + i
    } else {
        i
    };
    if 0 <= p && p < n {
        Some(p as usize)
    } else {
        None
    }
}

/// Handles the list commands against a keyspace.
#[derive(Debug)]
pub struct ListCommands {
    storage: StorageEngine,
}

impl View for ListCommands {
    type V = Seq<DbView>;

    closed spec fn view(&self) -> Seq<DbView> {
        self.storage@
    }
}

impl ListCommands {
    /// The handler's keyspace is well formed.
    pub closed spec fn wf(&self) -> bool {
        self.storage.wf()
    }

    /// A handler over `storage`.
    pub fn new(storage: StorageEngine) -> (r: Self)
        requires
            storage.wf(),
        ensures
            r.wf(),
            r@ == storage@,
    {
        ListCommands { storage }
    }

    /// Gives the keyspace back.
    pub fn into_storage(self) -> (r: StorageEngine)
        requires
            self.wf(),
        ensures
            r.wf(),
            r@ == self@,
    {
        self.storage
    }

    /// The list `args[0]` names, or the empty list; the errors for a bad
    /// database or a value of another kind.
    fn load(&self, args: &[Vec<u8>], db: usize, now: u64) -> (r: Result<Vec<Vec<u8>>, AikvError>)
        requires
            self.wf(),
            args@.len() >= 1,
        ensures
            !db_ok(self@, db as int) ==> (r matches Err(e) && crate::command::reply::error_models(e, Failure::DbRange)),
            db_ok(self@, db as int) ==> {
                let t = list_lookup(self@[db as int], key_of(args@[0]@), now);
                if t is WrongType {
                    (r matches Err(e) && crate::command::reply::error_models(e, Failure::WrongType))
                } else {
                    (r matches Ok(l) && bytes_views(l@) == list_or_empty(t))
                }
            },
    {
        if db >= self.storage.num_dbs() {
            return Err(db_range_error());
        }
        let key = arg_text(&args[0]);
        match self.storage.get_list(db, key.as_str(), now) {
            Ok(Some(l)) => Ok(l),
            Ok(None) => {
                let l: Vec<Vec<u8>> = Vec::new();
                proof {
                    assert(bytes_views(l@) =~= Seq::<Seq<u8>>::empty());
                }
                Ok(l)
            },
            Err(e) => Err(e),
        }
    }

    /// Stores `l` under `key`, or removes the key when `l` is empty.
    fn store(&mut self, db: usize, key: String, l: Vec<Vec<u8>>, now: u64)
        requires
            old(self).wf(),
            db_ok(old(self)@, db as int),
        ensures
            final(self).wf(),
            final(self)@ == store_list(old(self)@, db as int, key@, bytes_views(l@)),
    {
        if l.len() == 0 {
            self.storage.delete_from_db(db, key.as_str(), now);
        } else {
            self.storage.set_value(db, key, StoredValue::List(l), None);
        }
    }

    /// LPUSH (`left`) or RPUSH at time `now`.
    pub fn push_at(&mut self, args: &[Vec<u8>], db: usize, now: u64, left: bool) -> (r: Result<RespValue, AikvError>)
        requires
            old(self).wf(),
        ensures
            final(self).wf(),
            outcome_holds(push_spec(old(self)@, db as int, arg_views(args@), now, left), r, final(self)@),
    {
        proof {
            lemma_arg_views(args@);
        }
        if args.len() < 2 {
            return Err(arity_error(
                if left {
                    "LPUSH"
                } else {
                    "RPUSH"
                },
            ));
        }
        let l = match self.load(args, db, now) {
            Ok(l) => l,
            Err(e) => {
                return Err(e);
            },
        };
        let elems = copy_range_of(args, 1, args.len());
        proof {
            assert(bytes_views(args@).subrange(1, args@.len() as int) =~= arg_views(args@).subrange(1, args@.len() as int));
        }
        let nl = if left {
            let rev = reversed(&elems);
            concat(rev, l)
        } else {
            concat(l, elems)
        };
        let len = nl.len();
        let key = arg_text(&args[0]);
        self.storage.set_value(db, key, StoredValue::List(nl), None);
        Ok(RespValue::integer(len as i64))
    }

    /// LPUSH key element [element ...]: each element goes to the head in
    /// turn; answers the new length.
    pub fn lpush(&mut self, args: &[Vec<u8>], db: usize) -> (r: Result<RespValue, AikvError>)
        requires
            old(self).wf(),
        ensures
            final(self).wf(),
            exists|now: u64| outcome_holds(push_spec(old(self)@, db as int, arg_views(args@), now, true), r, final(self)@),
    {
        let now = unix_time_millis();
        self.push_at(args, db, now, true)
    }

    /// RPUSH key element [element ...]: the elements go to the tail;
    /// answers the new length.
    pub fn rpush(&mut self, args: &[Vec<u8>], db: usize) -> (r: Result<RespValue, AikvError>)
        requires
            old(self).wf(),
        ensures
            final(self).wf(),
            exists|now: u64| outcome_holds(push_spec(old(self)@, db as int, arg_views(args@), now, false), r, final(self)@),
    {
        let now = unix_time_millis();
        self.push_at(args, db, now, false)
    }

    /// LPOP (`left`) or RPOP at time `now`.
    pub fn pop_at(&mut self, args: &[Vec<u8>], db: usize, now: u64, left: bool) -> (r: Result<RespValue, AikvError>)
        requires
            old(self).wf(),
        ensures
            final(self).wf(),
            outcome_holds(pop_spec(old(self)@, db as int, arg_views(args@), now, left), r, final(self)@),
    {
        proof {
            lemma_arg_views(args@);
        }
        if args.len() == 0 {
            return Err(arity_error(
                if left {
                    "LPOP"
                } else {
                    "RPOP"
                },
            ));
        }
        let count: usize = if args.len() > 1 {
            match arg_usize(&args[1]) {
                Some(c) => c,
                None => {
                    return Err(invalid_error("invalid count"));
                },
            }
        } else {
            1
        };
        if db >= self.storage.num_dbs() {
            return Err(db_range_error());
        }
        let key = arg_text(&args[0]);
        let l = match self.storage.get_list(db, key.as_str(), now) {
            Ok(Some(l)) => l,
            Ok(None) => {
                return Ok(RespValue::Null);
            },
            Err(e) => {
                return Err(e);
            },
        };
        let ghost lv = bytes_views(l@);
        let len = l.len();
        let k = if count < len {
            count
        } else {
            len
        };
        let (vals, rest) = if left {
            (copy_range_of(&l, 0, k), copy_range_of(&l, k, len))
        } else {
            let tail = copy_range_of(&l, len - k, len);
            (reversed(&tail), copy_range_of(&l, 0, len - k))
        };
        proof {
            if left {
                assert(lv.subrange(0, k as int) =~= lv.take(k as int));
                assert(lv.subrange(k as int, len as int) =~= lv.skip(k as int));
            } else {
                assert(lv.subrange(len - k, len as int) =~= lv.skip(len - k));
                assert(lv.subrange(0, len - k) =~= lv.take(len - k));
            }
        }
        self.store(db, key, rest, now);
        if vals.len() == 0 {
            Ok(RespValue::Null)
        } else if count == 1 {
            Ok(RespValue::bulk_string(copy_bytes(&vals[0])))
        } else {
            Ok(bulk_list(&vals))
        }
    }

    /// LPOP key [count]: removes and answers elements from the head.
    pub fn lpop(&mut self, args: &[Vec<u8>], db: usize) -> (r: Result<RespValue, AikvError>)
        requires
            old(self).wf(),
        ensures
            final(self).wf(),
            exists|now: u64| outcome_holds(pop_spec(old(self)@, db as int, arg_views(args@), now, true), r, final(self)@),
    {
        let now = unix_time_millis();
        self.pop_at(args, db, now, true)
    }

    /// RPOP key [count]: removes and answers elements from the tail.
    pub fn rpop(&mut self, args: &[Vec<u8>], db: usize) -> (r: Result<RespValue, AikvError>)
        requires
            old(self).wf(),
        ensures
            final(self).wf(),
            exists|now: u64| outcome_holds(pop_spec(old(self)@, db as int, arg_views(args@), now, false), r, final(self)@),
    {
        let now = unix_time_millis();
        self.pop_at(args, db, now, false)
    }

    /// LLEN at time `now`.
    pub fn llen_at(&self, args: &[Vec<u8>], db: usize, now: u64) -> (r: Result<RespValue, AikvError>)
        requires
            self.wf(),
        ensures
            outcome_holds(llen_spec(self@, db as int, arg_views(args@), now), r, self@),
    {
        if args.len() != 1 {
            return Err(arity_error("LLEN"));
        }
        let l = match self.load(args, db, now) {
            Ok(l) => l,
            Err(e) => {
                return Err(e);
            },
        };
        Ok(RespValue::integer(l.len() as i64))
    }

    /// LLEN key: the list's length.
    pub fn llen(&self, args: &[Vec<u8>], db: usize) -> (r: Result<RespValue, AikvError>)
        requires
            self.wf(),
        ensures
            exists|now: u64| outcome_holds(llen_spec(self@, db as int, arg_views(args@), now), r, self@),
    {
        let now = unix_time_millis();
        self.llen_at(args, db, now)
    }

    /// LRANGE at time `now`.
    pub fn lrange_at(&self, args: &[Vec<u8>], db: usize, now: u64) -> (r: Result<RespValue, AikvError>)
        requires
            self.wf(),
        ensures
            outcome_holds(lrange_spec(self@, db as int, arg_views(args@), now), r, self@),
    {
        proof {
            lemma_arg_views(args@);
        }
        if args.len() != 3 {
            return Err(arity_error("LRANGE"));
        }
        let start = match arg_i64(&args[1]) {
            Some(v) => v,
            None => {
                return Err(invalid_error("invalid start index"));
            },
        };
        let stop = match arg_i64(&args[2]) {
            Some(v) => v,
            None => {
                return Err(invalid_error("invalid stop index"));
            },
        };
        let l = match self.load(args, db, now) {
            Ok(l) => l,
            Err(e) => {
                return Err(e);
            },
        };
        let (from, to) = bounds(l.len(), start, stop);
        let part = copy_range_of(&l, from, to);
        Ok(bulk_list(&part))
    }

    /// LRANGE key start stop: the selected elements.
    pub fn lrange(&self, args: &[Vec<u8>], db: usize) -> (r: Result<RespValue, AikvError>)
        requires
            self.wf(),
        ensures
            exists|now: u64| outcome_holds(lrange_spec(self@, db as int, arg_views(args@), now), r, self@),
    {
        let now = unix_time_millis();
        self.lrange_at(args, db, now)
    }

    /// LINDEX at time `now`.
    pub fn lindex_at(&self, args: &[Vec<u8>], db: usize, now: u64) -> (r: Result<RespValue, AikvError>)
        requires
            self.wf(),
        ensures
            outcome_holds(lindex_spec(self@, db as int, arg_views(args@), now), r, self@),
    {
        proof {
            lemma_arg_views(args@);
        }
        if args.len() != 2 {
            return Err(arity_error("LINDEX"));
        }
        let index = match arg_i64(&args[1]) {
            Some(v) => v,
            None => {
                return Err(invalid_error("invalid index"));
            },
        };
        let l = match self.load(args, db, now) {
            Ok(l) => l,
            Err(e) => {
                return Err(e);
            },
        };
        match position(l.len(), index) {
            Some(p) => Ok(RespValue::bulk_string(copy_bytes(&l[p]))),
            None => Ok(RespValue::Null),
        }
    }

    /// LINDEX key index: the element at the position, or the null value.
    pub fn lindex(&self, args: &[Vec<u8>], db: usize) -> (r: Result<RespValue, AikvError>)
        requires
            self.wf(),
        ensures
            exists|now: u64| outcome_holds(lindex_spec(self@, db as int, arg_views(args@), now), r, self@),
    {
        let now = unix_time_millis();
        self.lindex_at(args, db, now)
    }

    /// LSET at time `now`.
    pub fn lset_at(&mut self, args: &[Vec<u8>], db: usize, now: u64) -> (r: Result<RespValue, AikvError>)
        requires
            old(self).wf(),
        ensures
            final(self).wf(),
            outcome_holds(lset_spec(old(self)@, db as int, arg_views(args@), now), r, final(self)@),
    {
        proof {
            lemma_arg_views(args@);
        }
        if args.len() != 3 {
            return Err(arity_error("LSET"));
        }
        let index = match arg_i64(&args[1]) {
            Some(v) => v,
            None => {
                return Err(invalid_error("invalid index"));
            },
        };
        if db >= self.storage.num_dbs() {
            return Err(db_range_error());
        }
        let key = arg_text(&args[0]);
        let mut l = match self.storage.get_list(db, key.as_str(), now) {
            Ok(Some(l)) => l,
            Ok(None) => {
                return Err(invalid_error("no such key"));
            },
            Err(e) => {
                return Err(e);
            },
        };
        match position(l.len(), index) {
            Some(p) => {
                let ghost lv = bytes_views(l@);
                l.set(p, copy_bytes(&args[2]));
                proof {
                    assert(bytes_views(l@) =~= lv.update(p as int, args@[2]@));
                }
                self.storage.set_value(db, key, StoredValue::List(l), None);
                Ok(RespValue::ok())
            },
            None => Err(invalid_error("index out of range")),
        }
    }

    /// LSET key index element: replaces the element at the position.
    pub fn lset(&mut self, args: &[Vec<u8>], db: usize) -> (r: Result<RespValue, AikvError>)
        requires
            old(self).wf(),
        ensures
            final(self).wf(),
            exists|now: u64| outcome_holds(lset_spec(old(self)@, db as int, arg_views(args@), now), r, final(self)@),
    {
        let now = unix_time_millis();
        self.lset_at(args, db, now)
    }

    /// LREM at time `now`.
    pub fn lrem_at(&mut self, args: &[Vec<u8>], db: usize, now: u64) -> (r: Result<RespValue, AikvError>)
        requires
            old(self).wf(),
        ensures
            final(self).wf(),
            outcome_holds(lrem_spec(old(self)@, db as int, arg_views(args@), now), r, final(self)@),
    {
        proof {
            lemma_arg_views(args@);
        }
        if args.len() != 3 {
            return Err(arity_error("LREM"));
        }
        let count = match arg_i64(&args[1]) {
            Some(v) => v,
            None => {
                return Err(invalid_error("invalid count"));
            },
        };
        if db >= self.storage.num_dbs() {
            return Err(db_range_error());
        }
        let key = arg_text(&args[0]);
        let l = match self.storage.get_list(db, key.as_str(), now) {
            Ok(Some(l)) => l,
            Ok(None) => {
                return Ok(RespValue::integer(0));
            },
            Err(e) => {
                return Err(e);
            },
        };
        let len = l.len();
        let magnitude: u64 = if count >= 0 {
            count as u64
        } else {
            ((-(count + 1)) as u64) + 1
        };
        let k: usize = if count == 0 || magnitude >= len as u64 {
            len
        } else {
            magnitude as usize
        };
        let (kept, removed) = if count >= 0 {
            remove_from_head(&l, &args[2], k)
        } else {
            let rev = reversed(&l);
            let (kept_rev, removed) = remove_from_head(&rev, &args[2], k);
            (reversed(&kept_rev), removed)
        };
        self.store(db, key, kept, now);
        Ok(RespValue::integer(removed as i64))
    }

    /// LREM key count element: removes matches of the element, from the
    /// head when the count is positive, from the tail when negative, all
    /// of them when 0; answers how many were removed.
    pub fn lrem(&mut self, args: &[Vec<u8>], db: usize) -> (r: Result<RespValue, AikvError>)
        requires
            old(self).wf(),
        ensures
            final(self).wf(),
            exists|now: u64| outcome_holds(lrem_spec(old(self)@, db as int, arg_views(args@), now), r, final(self)@),
    {
        let now = unix_time_millis();
        self.lrem_at(args, db, now)
    }

    /// LTRIM at time `now`.
    pub fn ltrim_at(&mut self, args: &[Vec<u8>], db: usize, now: u64) -> (r: Result<RespValue, AikvError>)
        requires
            old(self).wf(),
        ensures
            final(self).wf(),
            outcome_holds(ltrim_spec(old(self)@, db as int, arg_views(args@), now), r, final(self)@),
    {
        proof {
            lemma_arg_views(args@);
        }
        if args.len() != 3 {
            return Err(arity_error("LTRIM"));
        }
        let start = match arg_i64(&args[1]) {
            Some(v) => v,
            None => {
                return Err(invalid_error("invalid start index"));
            },
        };
        let stop = match arg_i64(&args[2]) {
            Some(v) => v,
            None => {
                return Err(invalid_error("invalid stop index"));
            },
        };
        if db >= self.storage.num_dbs() {
            return Err(db_range_error());
        }
        let key = arg_text(&args[0]);
        let l = match self.storage.get_list(db, key.as_str(), now) {
            Ok(Some(l)) => l,
            Ok(None) => {
                return Ok(RespValue::ok());
            },
            Err(e) => {
                return Err(e);
            },
        };
        let (from, to) = bounds(l.len(), start, stop);
        let part = copy_range_of(&l, from, to);
        self.store(db, key, part, now);
        Ok(RespValue::ok())
    }

    /// LTRIM key start stop: keeps only the selected elements.
    pub fn ltrim(&mut self, args: &[Vec<u8>], db: usize) -> (r: Result<RespValue, AikvError>)
        requires
            old(self).wf(),
        ensures
            final(self).wf(),
            exists|now: u64| outcome_holds(ltrim_spec(old(self)@, db as int, arg_views(args@), now), r, final(self)@),
    {
        let now = unix_time_millis();
        self.ltrim_at(args, db, now)
    }

    /// LINSERT at time `now`.
    pub fn linsert_at(&mut self, args: &[Vec<u8>], db: usize, now: u64) -> (r: Result<RespValue, AikvError>)
        requires
            old(self).wf(),
        ensures
            final(self).wf(),
            outcome_holds(linsert_spec(old(self)@, db as int, arg_views(args@), now), r, final(self)@),
    {
        proof {
            lemma_arg_views(args@);
        }
        if args.len() != 4 {
            return Err(arity_error("LINSERT"));
        }
        let pos = arg_option(&args[1]);
        let before = if str_eq(pos.as_str(), "BEFORE") {
            true
        } else if str_eq(pos.as_str(), "AFTER") {
            false
        } else {
            return Err(invalid_error("ERR syntax error"));
        };
        if db >= self.storage.num_dbs() {
            return Err(db_range_error());
        }
        let key = arg_text(&args[0]);
        let mut l = match self.storage.get_list(db, key.as_str(), now) {
            Ok(Some(l)) => l,
            Ok(None) => {
                return Ok(RespValue::integer(0));
            },
            Err(e) => {
                return Err(e);
            },
        };
        let ghost lv = bytes_views(l@);
        let ghost pivot = args@[2]@;
        proof {
            lv.index_of_first_ensures(pivot);
        }
        let mut i: usize = 0;
        while i < l.len()
            invariant
                i <= l@.len(),
                lv == bytes_views(l@),
                args@.len() == 4,
                pivot == args@[2]@,
                forall|j: int| 0 <= j < i ==> lv[j] != pivot,
            ensures
                i <= l@.len(),
                forall|j: int| 0 <= j < i ==> lv[j] != pivot,
                i < l@.len() ==> lv[i as int] == pivot,
            decreases l.len() - i,
        {
            if bytes_eq(&l[i], &args[2]) {
                break;
            }
            i = i + 1;
        }
        if i == l.len() {
            proof {
                if lv.contains(pivot) {
                    let j = choose|j: int| 0 <= j < lv.len() && lv[j] == pivot;
                    assert(lv[j] != pivot);
                }
            }
            return Ok(RespValue::integer(-1));
        }
        proof {
            assert(lv[i as int] == pivot);
            assert(lv.contains(pivot));
            let f = lv.index_of_first(pivot).unwrap();
            assert(f == i) by {
                if f < i {
                    assert(lv[f] != pivot);
                }
                if f > i {
                    assert(lv[i as int] != pivot);
                }
            }
        }
        let at = if before {
            i
        } else {
            i + 1
        };
        l.insert(at, copy_bytes(&args[3]));
        proof {
            assert(bytes_views(l@) =~= lv.insert(at as int, args@[3]@));
        }
        let len = l.len();
        self.storage.set_value(db, key, StoredValue::List(l), None);
        Ok(RespValue::integer(len as i64))
    }

    /// LINSERT key BEFORE|AFTER pivot element: inserts next to the first
    /// occurrence of the pivot; answers the new length, -1 when the pivot
    /// is absent and 0 when the key holds nothing.
    pub fn linsert(&mut self, args: &[Vec<u8>], db: usize) -> (r: Result<RespValue, AikvError>)
        requires
            old(self).wf(),
        ensures
            final(self).wf(),
            exists|now: u64| outcome_holds(linsert_spec(old(self)@, db as int, arg_views(args@), now), r, final(self)@),
    {
        let now = unix_time_millis();
        self.linsert_at(args, db, now)
    }

    /// LMOVE at time `now`.
    pub fn lmove_at(&mut self, args: &[Vec<u8>], db: usize, now: u64) -> (r: Result<RespValue, AikvError>)
        requires
            old(self).wf(),
        ensures
            final(self).wf(),
            outcome_holds(lmove_spec(old(self)@, db as int, arg_views(args@), now), r, final(self)@),
    {
        proof {
            lemma_arg_views(args@);
        }
        if args.len() != 4 {
            return Err(arity_error("LMOVE"));
        }
        let from = arg_option(&args[2]);
        let to = arg_option(&args[3]);
        let pop_left = if str_eq(from.as_str(), "LEFT") {
            true
        } else if str_eq(from.as_str(), "RIGHT") {
            false
        } else {
            return Err(invalid_error("ERR syntax error"));
        };
        let push_left = if str_eq(to.as_str(), "LEFT") {
            true
        } else if str_eq(to.as_str(), "RIGHT") {
            false
        } else {
            return Err(invalid_error("ERR syntax error"));
        };
        if db >= self.storage.num_dbs() {
            return Err(db_range_error());
        }
        let source = arg_text(&args[0]);
        let dest = arg_text(&args[1]);
        let mut src = match self.storage.get_list(db, source.as_str(), now) {
            Ok(Some(l)) => l,
            Ok(None) => {
                return Ok(RespValue::Null);
            },
            Err(e) => {
                return Err(e);
            },
        };
        if src.len() == 0 {
            return Ok(RespValue::Null);
        }
        let ghost sv = bytes_views(src@);
        let elem = if pop_left {
            src.remove(0)
        } else {
            match src.pop() {
                Some(e) => e,
                None => {
                    return Ok(RespValue::Null);
                },
            }
        };
        proof {
            if pop_left {
                assert(bytes_views(src@) =~= sv.drop_first());
            } else {
                assert(bytes_views(src@) =~= sv.drop_last());
            }
        }
        let answer = RespValue::bulk_string(copy_bytes(&elem));
        if str_eq(source.as_str(), dest.as_str()) {
            let ghost rest = bytes_views(src@);
            if push_left {
                src.insert(0, elem);
                proof {
                    assert(bytes_views(src@) =~= seq![elem@] + rest);
                }
            } else {
                src.push(elem);
                proof {
                    assert(bytes_views(src@) =~= rest.push(elem@));
                }
            }
            self.storage.set_value(db, dest, StoredValue::List(src), None);
            return Ok(answer);
        }
        let mut dst = match self.storage.get_list(db, dest.as_str(), now) {
            Ok(Some(l)) => l,
            Ok(None) => {
                let l: Vec<Vec<u8>> = Vec::new();
                proof {
                    assert(bytes_views(l@) =~= Seq::<Seq<u8>>::empty());
                }
                l
            },
            Err(e) => {
                return Err(e);
            },
        };
        let ghost dv = bytes_views(dst@);
        if push_left {
            dst.insert(0, elem);
            proof {
                assert(bytes_views(dst@) =~= seq![elem@] + dv);
            }
        } else {
            dst.push(elem);
            proof {
                assert(bytes_views(dst@) =~= dv.push(elem@));
            }
        }
        self.store(db, source, src, now);
        self.storage.set_value(db, dest, StoredValue::List(dst), None);
        Ok(answer)
    }

    /// LMOVE source destination LEFT|RIGHT LEFT|RIGHT: moves an element
    /// from an end of the source to an end of the destination; answers it.
    pub fn lmove(&mut self, args: &[Vec<u8>], db: usize) -> (r: Result<RespValue, AikvError>)
        requires
            old(self).wf(),
        ensures
            final(self).wf(),
            exists|now: u64| outcome_holds(lmove_spec(old(self)@, db as int, arg_views(args@), now), r, final(self)@),
    {
        let now = unix_time_millis();
        self.lmove_at(args, db, now)
    }
}


/// How many elements of `l` equal `e`.
pub open spec fn occurrences(l: Seq<Seq<u8>>, e: Seq<u8>) -> nat
    decreases l.len(),
{
    if l.len() == 0 {
        0
    } else {
        occurrences(l.drop_first(), e) + if l[0] == e {
            1nat
        } else {
            0nat
        }
    }
}

/// `l` without the elements equal to `e`, the others in order.
pub open spec fn strip(l: Seq<Seq<u8>>, e: Seq<u8>) -> Seq<Seq<u8>>
    decreases l.len(),
{
    if l.len() == 0 {
        l
    } else if l[0] == e {
        strip(l.drop_first(), e)
    } else {
        seq![l[0]] + strip(l.drop_first(), e)
    }
}

proof fn lemma_occurrences_bound(l: Seq<Seq<u8>>, e: Seq<u8>)
    ensures
        occurrences(l, e) <= l.len(),
    decreases l.len(),
{
    if l.len() > 0 {
        lemma_occurrences_bound(l.drop_first(), e);
    }
}

proof fn lemma_occurrences_push(l: Seq<Seq<u8>>, x: Seq<u8>, e: Seq<u8>)
    ensures
        occurrences(l.push(x), e) == occurrences(l, e) + if x == e {
            1nat
        } else {
            0nat
        },
    decreases l.len(),
{
    if l.len() == 0 {
        assert(l.push(x).drop_first() =~= Seq::<Seq<u8>>::empty());
        assert(l.push(x)[0] == x);
        assert(occurrences(l.push(x).drop_first(), e) == 0);
    } else {
        assert(l.push(x).drop_first() =~= l.drop_first().push(x));
        assert(l.push(x)[0] == l[0]);
        lemma_occurrences_push(l.drop_first(), x, e);
    }
}

proof fn lemma_occurrences_reverse(l: Seq<Seq<u8>>, e: Seq<u8>)
    ensures
        occurrences(l.reverse(), e) == occurrences(l, e),
    decreases l.len(),
{
    if l.len() > 0 {
        lemma_occurrences_reverse(l.drop_first(), e);
        assert(l.reverse() =~= l.drop_first().reverse().push(l[0]));
        lemma_occurrences_push(l.drop_first().reverse(), l[0], e);
    }
}

proof fn lemma_strip_push(l: Seq<Seq<u8>>, x: Seq<u8>, e: Seq<u8>)
    ensures
        strip(l.push(x), e) == strip(l, e) + if x == e {
            Seq::<Seq<u8>>::empty()
        } else {
            seq![x]
        },
    decreases l.len(),
{
    if l.len() == 0 {
        assert(l.push(x).drop_first() =~= Seq::<Seq<u8>>::empty());
        assert(l.push(x)[0] == x);
        assert(strip(l.push(x).drop_first(), e) =~= Seq::<Seq<u8>>::empty());
        if x != e {
            assert(seq![x] + Seq::<Seq<u8>>::empty() =~= seq![x]);
        }
        assert(strip(l, e) =~= Seq::<Seq<u8>>::empty());
        assert(Seq::<Seq<u8>>::empty() + Seq::<Seq<u8>>::empty() =~= Seq::<Seq<u8>>::empty());
        assert(Seq::<Seq<u8>>::empty() + seq![x] =~= seq![x]);
    } else {
        assert(l.push(x).drop_first() =~= l.drop_first().push(x));
        assert(l.push(x)[0] == l[0]);
        lemma_strip_push(l.drop_first(), x, e);
        let tail = if x == e {
            Seq::<Seq<u8>>::empty()
        } else {
            seq![x]
        };
        if l[0] != e {
            assert(seq![l[0]] + (strip(l.drop_first(), e) + tail) =~= (seq![l[0]] + strip(l.drop_first(), e)) + tail);
        }
    }
}

proof fn lemma_strip_reverse(l: Seq<Seq<u8>>, e: Seq<u8>)
    ensures
        strip(l.reverse(), e) == strip(l, e).reverse(),
    decreases l.len(),
{
    if l.len() == 0 {
        assert(l.reverse() =~= l);
        assert(strip(l, e).reverse() =~= strip(l, e));
    } else {
        lemma_strip_reverse(l.drop_first(), e);
        assert(l.reverse() =~= l.drop_first().reverse().push(l[0]));
        lemma_strip_push(l.drop_first().reverse(), l[0], e);
        let st = strip(l.drop_first(), e);
        if l[0] == e {
            assert(st.reverse() + Seq::<Seq<u8>>::empty() =~= st.reverse());
        } else {
            assert((seq![l[0]] + st).reverse() =~= st.reverse() + seq![l[0]]);
        }
    }
}

proof fn lemma_rem_head_zero(l: Seq<Seq<u8>>, e: Seq<u8>)
    ensures
        rem_head(l, e, 0) == (l, 0nat),
    decreases l.len(),
{
    if l.len() > 0 {
        lemma_rem_head_zero(l.drop_first(), e);
        assert(seq![l[0]] + l.drop_first() =~= l);
    }
}

/// `rem_head` removes the first matches of `e`, as many as `k` allows.
proof fn lemma_rem_head(l: Seq<Seq<u8>>, e: Seq<u8>, k: nat)
    ensures
        rem_head(l, e, k).1 == min_int(k as int, occurrences(l, e) as int),
        rem_head(l, e, k).0.len() + rem_head(l, e, k).1 == l.len(),
        exists|j: int|
            0 <= j <= l.len() && occurrences(#[trigger] l.take(j), e) == rem_head(l, e, k).1 && rem_head(l, e, k).0
                == strip(l.take(j), e) + l.skip(j),
    decreases l.len(),
{
    let r = rem_head(l, e, k);
    if l.len() == 0 || k == 0 {
        if k == 0 {
            lemma_rem_head_zero(l, e);
        }
        assert(l.take(0) =~= Seq::<Seq<u8>>::empty());
        assert(strip(l.take(0), e) + l.skip(0) =~= l.skip(0));
        assert(l.skip(0) =~= l);
        assert(occurrences(l.take(0), e) == 0);
    } else {
        let t = l.drop_first();
        let k2: nat = if l[0] == e {
            (k - 1) as nat
        } else {
            k
        };
        lemma_rem_head(t, e, k2);
        let rt = rem_head(t, e, k2);
        let j2 = choose|j: int|
            0 <= j <= t.len() && occurrences(#[trigger] t.take(j), e) == rt.1 && rt.0 == strip(t.take(j), e) + t.skip(j);
        let j = j2 + 1;
        let p = l.take(j);
        assert(p.drop_first() =~= t.take(j2));
        assert(p[0] == l[0]);
        assert(l.skip(j) =~= t.skip(j2));
        if l[0] == e {
            assert(r == (rt.0, rt.1 + 1));
            assert(strip(p, e) == strip(t.take(j2), e));
        } else {
            assert(strip(p, e) == seq![l[0]] + strip(t.take(j2), e));
            assert(r.0 =~= seq![l[0]] + rt.0);
            assert(r.0 =~= strip(p, e) + l.skip(j));
        }
        assert(occurrences(p, e) == r.1);
    }
}

/// LREM key count element on a list `l`: it answers how many matches of
/// the element it removed: all of them for a count of 0, else as many as
/// the count's magnitude allows; and it stores what is left (removing the
/// key when nothing is). A count of 0 or more removes the matches nearest
/// the head: what is left is the list with its first that-many matches
/// deleted and everything else kept in order; a negative count removes the
/// matches nearest the tail in the same way.
pub proof fn law_lrem(m: Seq<DbView>, db: int, a: Seq<Seq<u8>>, now: u64, l: Seq<Seq<u8>>, count: int)
    requires
        a.len() == 3,
        int_arg(a[1]) == Some(count),
        db_ok(m, db),
        list_lookup(m[db], key_of(a[0]), now) == Typed::Found(l),
    ensures
        ({
            let e = a[2];
            let occ = occurrences(l, e) as int;
            let removed = if count == 0 {
                occ
            } else if count > 0 {
                min_int(count, occ)
            } else {
                min_int(-count, occ)
            };
            exists|l2: Seq<Seq<u8>>|
                {
                    &&& lrem_spec(m, db, a, now) == (Reply::Int(removed), store_list(m, db, key_of(a[0]), l2))
                    &&& l2.len() == l.len() - removed
                    &&& count >= 0 ==> exists|j: int|
                        0 <= j <= l.len() && occurrences(#[trigger] l.take(j), e) == removed && l2 == strip(
                            l.take(j),
                            e,
                        ) + l.skip(j)
                    &&& count < 0 ==> exists|j: int|
                        0 <= j <= l.len() && occurrences(#[trigger] l.skip(j), e) == removed && l2 == l.take(j)
                            + strip(l.skip(j), e)
                }
        }),
{
    let e = a[2];
    lemma_occurrences_bound(l, e);
    let r = lrem_result(l, e, count);
    if count >= 0 {
        lemma_rem_head(l, e, rem_limit(count, l.len()));
    } else {
        let rv = l.reverse();
        lemma_occurrences_reverse(l, e);
        lemma_rem_head(rv, e, rem_limit(count, l.len()));
        let rr = rem_head(rv, e, rem_limit(count, l.len()));
        let j2 = choose|j: int|
            0 <= j <= rv.len() && occurrences(#[trigger] rv.take(j), e) == rr.1 && rr.0 == strip(rv.take(j), e) + rv.skip(j);
        let j = l.len() - j2;
        assert(rv.take(j2) =~= l.skip(j).reverse());
        assert(rv.skip(j2) =~= l.take(j).reverse());
        lemma_occurrences_reverse(l.skip(j), e);
        lemma_strip_reverse(l.skip(j), e);
        assert(strip(rv.take(j2), e) == strip(l.skip(j), e).reverse());
        assert(r.0 =~= (strip(l.skip(j), e).reverse() + l.take(j).reverse()).reverse());
        assert((strip(l.skip(j), e).reverse() + l.take(j).reverse()).reverse() =~= l.take(j) + strip(l.skip(j), e));
        assert(occurrences(l.skip(j), e) == r.1);
    }
    assert(lrem_spec(m, db, a, now) == (Reply::Int(r.1 as int), store_list(m, db, key_of(a[0]), r.0)));
}


/// Whether position `i` of a sequence of `n` elements lies from `start`
/// to `stop` inclusive, where a negative `start` counts from the end
/// (`n + start`) and so does a negative `stop` (`n + stop`, held at the
/// head when it falls before it).
pub open spec fn range_picks(n: int, start: int, stop: int, i: int) -> bool {
    &&& 0 <= i < n
    &&& (if start < 0 {
        n + start
    } else {
        start
    }) <= i
    &&& i <= (if stop < 0 {
        if n + stop > 0 {
            n + stop
        } else {
            0
        }
    } else {
        stop
    })
}

/// LRANGE and LTRIM select, from a list of `n` elements, the positions from
/// `start` to `stop` inclusive, negative ones counting from the end (see
/// `range_picks`): the bounds are exactly that selection.
pub proof fn law_range_bounds(n: int, start: int, stop: int)
    requires
        n >= 0,
    ensures
        0 <= range_bounds(n, start, stop).0 <= range_bounds(n, start, stop).1 <= n,
        forall|i: int|
            (range_bounds(n, start, stop).0 <= i < range_bounds(n, start, stop).1) <==> #[trigger] range_picks(
                n,
                start,
                stop,
                i,
            ),
{
}

} // verus!