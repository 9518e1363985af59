//! The set commands: collections of distinct byte strings stored under a
//! key.
//!
//! A set is kept as a sequence of members in the order they were added;
//! SMEMBERS, SPOP, SRANDMEMBER and the combining commands follow that
//! order.
use crate::command::list::{bulks, min_int};
use crate::command::reply::{
    arg_i64, arg_option, arg_text, arg_usize, arg_views, arity_error, db_range_error, int_arg, invalid_error, key_of,
    lemma_arg_views, option_of, outcome_holds, text_bytes, usize_arg, Failure, Reply,
};
use crate::command::string::db_ok;
use crate::error::AikvError;
use crate::protocol::RespValue;
use crate::storage::{
    bytes_eq, bytes_views, copy_bytes, drop_key, put_value, set_lookup, unix_time_millis, DbView, StorageEngine,
    StoredValue, Typed, ValueView,
};
use crate::text::str_eq;
use vstd::prelude::*;

verus! {

/// The set a lookup gives, the empty one when the key holds nothing.
pub open spec fn set_or_empty(t: Typed<Seq<Seq<u8>>>) -> Seq<Seq<u8>> {
    match t {
        Typed::Found(s) => s,
        _ => Seq::empty(),
    }
}

/// The set with `x` added at the end when absent.
pub open spec fn set_add(s: Seq<Seq<u8>>, x: Seq<u8>) -> Seq<Seq<u8>> {
    if s.contains(x) {
        s
    } else {
        s.push(x)
    }
}

/// The members of `s` that are (`inside`) or are not in `other`, in order.
pub open spec fn keep(s: Seq<Seq<u8>>, other: Seq<Seq<u8>>, inside: bool) -> Seq<Seq<u8>>
    decreases s.len(),
{
    if s.len() == 0 {
        s
    } else {
        let r = keep(s.drop_last(), other, inside);
        if other.contains(s.last()) == inside {
            r.push(s.last())
        } else {
            r
        }
    }
}

/// The set without `x`.
pub open spec fn set_remove(s: Seq<Seq<u8>>, x: Seq<u8>) -> Seq<Seq<u8>> {
    keep(s, seq![x], false)
}

/// No member occurs twice.
pub open spec fn distinct(s: Seq<Seq<u8>>) -> bool {
    forall|i: int, j: int| 0 <= i < j < s.len() ==> s[i] != s[j]
}

/// The members `a[1..=n]` added to `s`, with the number that were new.
pub open spec fn sadd_fold(s: Seq<Seq<u8>>, a: Seq<Seq<u8>>, n: nat) -> (Seq<Seq<u8>>, int)
    decreases n,
{
    if n == 0 {
        (s, 0)
    } else {
        let prev = sadd_fold(s, a, (n - 1) as nat);
        let x = a[n as int];
        (set_add(prev.0, x), prev.1 + if prev.0.contains(x) {
            0int
        } else {
            1int
        })
    }
}

/// The members `a[1..=n]` removed from `s`, with the number that were
/// present.
pub open spec fn srem_fold(s: Seq<Seq<u8>>, a: Seq<Seq<u8>>, n: nat) -> (Seq<Seq<u8>>, int)
    decreases n,
{
    if n == 0 {
        (s, 0)
    } else {
        let prev = srem_fold(s, a, (n - 1) as nat);
        let x = a[n as int];
        if prev.0.contains(x) {
            (set_remove(prev.0, x), prev.1 + 1)
        } else {
            prev
        }
    }
}

/// The keyspace after a set is stored back: removed when empty.
pub open spec fn store_set(m: Seq<DbView>, db: int, key: Seq<char>, s: Seq<Seq<u8>>) -> Seq<DbView> {
    if s.len() == 0 {
        drop_key(m, db, key)
    } else {
        put_value(m, db, key, ValueView::SetMembers(s))
    }
}

/// SADD key member [member ...]: answers how many members were new.
pub open spec fn sadd_spec(m: Seq<DbView>, db: int, a: Seq<Seq<u8>>, now: u64) -> (Reply, Seq<DbView>) {
    if a.len() < 2 {
        (Reply::Fail(Failure::Arity("SADD"@)), m)
    } else if !db_ok(m, db) {
        (Reply::Fail(Failure::DbRange), m)
    } else {
        let key = key_of(a[0]);
        let t = set_lookup(m[db], key, now);
        if t is WrongType {
            (Reply::Fail(Failure::WrongType), m)
        } else {
            let r = sadd_fold(set_or_empty(t), a, (a.len() - 1) as nat);
            (Reply::Int(r.1), put_value(m, db, key, ValueView::SetMembers(r.0)))
        }
    }
}

/// SREM key member [member ...]: answers how many members were removed; a
/// set left empty is removed.
pub open spec fn srem_spec(m: Seq<DbView>, db: int, a: Seq<Seq<u8>>, now: u64) -> (Reply, Seq<DbView>) {
    if a.len() < 2 {
        (Reply::Fail(Failure::Arity("SREM"@)), m)
    } else if !db_ok(m, db) {
        (Reply::Fail(Failure::DbRange), m)
    } else {
        let key = key_of(a[0]);
        match set_lookup(m[db], key, now) {
            Typed::WrongType => (Reply::Fail(Failure::WrongType), m),
            Typed::Absent => (Reply::Int(0), m),
            Typed::Found(s) => {
                let r = srem_fold(s, a, (a.len() - 1) as nat);
                (Reply::Int(r.1), store_set(m, db, key, r.0))
            },
        }
    }
}

/// A read-only set command on one key.
pub open spec fn set_read(m: Seq<DbView>, db: int, a: Seq<Seq<u8>>, now: u64, answer: spec_fn(Seq<Seq<u8>>) -> Reply) -> (
    Reply,
    Seq<DbView>,
) {
    if !db_ok(m, db) {
        (Reply::Fail(Failure::DbRange), m)
    } else {
        let t = set_lookup(m[db], key_of(a[0]), now);
        if t is WrongType {
            (Reply::Fail(Failure::WrongType), m)
        } else {
            (answer(set_or_empty(t)), m)
        }
    }
}

/// SISMEMBER key member
pub open spec fn sismember_spec(m: Seq<DbView>, db: int, a: Seq<Seq<u8>>, now: u64) -> (Reply, Seq<DbView>) {
    if a.len() != 2 {
        (Reply::Fail(Failure::Arity("SISMEMBER"@)), m)
    } else {
        set_read(
            m,
            db,
            a,
            now,
            |s: Seq<Seq<u8>>|
                Reply::Int(
                    if s.contains(a[1]) {
                        1
                    } else {
                        0
                    },
                ),
        )
    }
}

/// SMEMBERS key
pub open spec fn smembers_spec(m: Seq<DbView>, db: int, a: Seq<Seq<u8>>, now: u64) -> (Reply, Seq<DbView>) {
    if a.len() != 1 {
        (Reply::Fail(Failure::Arity("SMEMBERS"@)), m)
    } else {
        set_read(m, db, a, now, |s: Seq<Seq<u8>>| Reply::Array(bulks(s)))
    }
}

/// SCARD key
pub open spec fn scard_spec(m: Seq<DbView>, db: int, a: Seq<Seq<u8>>, now: u64) -> (Reply, Seq<DbView>) {
    if a.len() != 1 {
        (Reply::Fail(Failure::Arity("SCARD"@)), m)
    } else {
        set_read(m, db, a, now, |s: Seq<Seq<u8>>| Reply::Int(s.len() as int))
    }
}

/// SPOP key [count]: removes the first `count` (default 1) members.
pub open spec fn spop_spec(m: Seq<DbView>, db: int, a: Seq<Seq<u8>>, now: u64) -> (Reply, Seq<DbView>) {
    if a.len() == 0 {
        (Reply::Fail(Failure::Arity("SPOP"@)), m)
    } else {
        let count = if a.len() > 1 {
            usize_arg(a[1])
        } else {
            Some(1nat)
        };
        match count {
            None => (Reply::Fail(Failure::Invalid("invalid count"@)), m),
            Some(c) => if !db_ok(m, db) {
                (Reply::Fail(Failure::DbRange), m)
            } else {
                let key = key_of(a[0]);
                match set_lookup(m[db], key, now) {
                    Typed::WrongType => (Reply::Fail(Failure::WrongType), m),
                    Typed::Absent => (Reply::Nil, m),
                    Typed::Found(s) => {
                        let k = min_int(c as int, s.len() as int);
                        let popped = s.take(k);
                        (
                            if popped.len() == 0 {
                                Reply::Nil
                            } else if c == 1 {
                                Reply::Bulk(popped[0])
                            } else {
                                Reply::Array(bulks(popped))
                            },
                            store_set(m, db, key, s.skip(k)),
                        )
                    },
                }
            },
        }
    }
}

/// SRANDMEMBER key [count]: the first `|count|` (default 1) members.
pub open spec fn srandmember_spec(m: Seq<DbView>, db: int, a: Seq<Seq<u8>>, now: u64) -> (Reply, Seq<DbView>) {
    if a.len() == 0 {
        (Reply::Fail(Failure::Arity("SRANDMEMBER"@)), m)
    } else {
        let count = if a.len() > 1 {
            int_arg(a[1])
        } else {
            Some(1int)
        };
        match count {
            None => (Reply::Fail(Failure::Invalid("invalid count"@)), m),
            Some(c) => set_read(
                m,
                db,
                a,
                now,
                |s: Seq<Seq<u8>>|
                    {
                        let mag = if c < 0 {
                            -c
                        } else {
                            c
                        };
                        let members = s.take(min_int(mag, s.len() as int));
                        if members.len() == 0 && a.len() == 1 {
                            Reply::Nil
                        } else if c == 1 && a.len() == 1 {
                            Reply::Bulk(members[0])
                        } else {
                            Reply::Array(bulks(members))
                        }
                    },
            ),
        }
    }
}

/// Where combining sets stands after some keys: an error, an early empty
/// result, or the members gathered so far (none before the first set).
pub ghost enum Gather {
    Failed,
    Stopped,
    Acc(Option<Seq<Seq<u8>>>),
}

/// One key's set folded into what combining has gathered: operation 0
/// (union) appends the new members, 1 (intersection) keeps the shared
/// ones and stops at a key that holds nothing, 2 (difference) starts from
/// the first set and drops the members of the later ones.
pub open spec fn gather_step(op: int, acc: Option<Seq<Seq<u8>>>, t: Typed<Seq<Seq<u8>>>) -> Gather {
    match t {
        Typed::WrongType => Gather::Failed,
        Typed::Absent => if op == 0 {
            Gather::Acc(acc)
        } else if op == 1 {
            Gather::Stopped
        } else {
            Gather::Acc(
                Some(
                    match acc {
                        None => Seq::empty(),
                        Some(x) => x,
                    },
                ),
            )
        },
        Typed::Found(s) => Gather::Acc(
            Some(
                match acc {
                    None => s,
                    Some(x) => if op == 0 {
                        x + keep(s, x, false)
                    } else if op == 1 {
                        keep(x, s, true)
                    } else {
                        keep(x, s, false)
                    },
                },
            ),
        ),
    }
}

/// Combining the sets of the keys `a[from..from + n]`; the union starts
/// from the empty set, the others from the first key's set.
pub open spec fn gather_fold(d: DbView, a: Seq<Seq<u8>>, from: int, n: nat, now: u64, op: int) -> Gather
    decreases n,
{
    if n == 0 {
        Gather::Acc(
            if op == 0 {
                Some(Seq::empty())
            } else {
                None
            },
        )
    } else {
        match gather_fold(d, a, from, (n - 1) as nat, now, op) {
            Gather::Acc(acc) => gather_step(op, acc, set_lookup(d, key_of(a[from + n - 1]), now)),
            other => other,
        }
    }
}

/// The gathered members: empty for an early stop or before any set.
pub open spec fn gathered(g: Gather) -> Seq<Seq<u8>> {
    match g {
        Gather::Acc(Some(s)) => s,
        _ => Seq::empty(),
    }
}

/// The name of a combining command.
pub open spec fn combine_name(op: int, store: bool) -> Seq<char> {
    if op == 0 {
        if store {
            "SUNIONSTORE"@
        } else {
            "SUNION"@
        }
    } else if op == 1 {
        if store {
            "SINTERSTORE"@
        } else {
            "SINTER"@
        }
    } else {
        if store {
            "SDIFFSTORE"@
        } else {
            "SDIFF"@
        }
    }
}

/// SUNION, SINTER, SDIFF (`store` false) and their STORE forms, which
/// write the result under `a[0]` and answer its size.
pub open spec fn combine_spec(m: Seq<DbView>, db: int, a: Seq<Seq<u8>>, now: u64, op: int, store: bool) -> (
    Reply,
    Seq<DbView>,
) {
    let from: int = if store {
        1
    } else {
        0
    };
    if a.len() < from + 1 {
        (Reply::Fail(Failure::Arity(combine_name(op, store))), m)
    } else if !db_ok(m, db) {
        (Reply::Fail(Failure::DbRange), m)
    } else {
        let g = gather_fold(m[db], a, from, (a.len() - from) as nat, now, op);
        if g is Failed {
            (Reply::Fail(Failure::WrongType), m)
        } else if store {
            let s = gathered(g);
            (Reply::Int(s.len() as int), put_value(m, db, key_of(a[0]), ValueView::SetMembers(s)))
        } else {
            (Reply::Array(bulks(gathered(g))), m)
        }
    }
}

/// SMOVE source destination member: answers 1 when the member moved.
pub open spec fn smove_spec(m: Seq<DbView>, db: int, a: Seq<Seq<u8>>, now: u64) -> (Reply, Seq<DbView>) {
    if a.len() != 3 {
        (Reply::Fail(Failure::Arity("SMOVE"@)), m)
    } else if !db_ok(m, db) {
        (Reply::Fail(Failure::DbRange), m)
    } else {
        let sk = key_of(a[0]);
        let dk = key_of(a[1]);
        let x = a[2];
        match set_lookup(m[db], sk, now) {
            Typed::WrongType => (Reply::Fail(Failure::WrongType), m),
            Typed::Absent => (Reply::Int(0), m),
            Typed::Found(src) => if !src.contains(x) {
                (Reply::Int(0), m)
            } else {
                let rest = set_remove(src, x);
                if sk == dk {
                    (Reply::Int(1), put_value(m, db, dk, ValueView::SetMembers(set_add(rest, x))))
                } else {
                    let dt = set_lookup(m[db], dk, now);
                    if dt is WrongType {
                        (Reply::Fail(Failure::WrongType), m)
                    } else {
                        (
                            Reply::Int(1),
                            put_value(
                                store_set(m, db, sk, rest),
                                db,
                                dk,
                                ValueView::SetMembers(set_add(set_or_empty(dt), x)),
                            ),
                        )
                    }
                }
            },
        }
    }
}

/// SSCAN's options from position `i` on: an optional MATCH pattern and the
/// COUNT (10 when not given).
pub open spec fn sscan_options(a: Seq<Seq<u8>>, i: int, pat: Option<Seq<char>>, count: nat) -> Result<
    (Option<Seq<char>>, nat),
    Seq<char>,
>
    decreases a.len() - i,
{
    if i < 0 || i >= a.len() {
        Ok((pat, count))
    } else {
        let opt = option_of(a[i]);
        if opt == "MATCH"@ {
            if i + 1 >= a.len() {
                Err("ERR syntax error"@)
            } else {
                sscan_options(a, i + 2, Some(key_of(a[i + 1])), count)
            }
        } else if opt == "COUNT"@ {
            if i + 1 >= a.len() {
                Err("ERR syntax error"@)
            } else {
                match usize_arg(a[i + 1]) {
                    None => Err("ERR value is not an integer or out of range"@),
                    Some(c) => sscan_options(a, i + 2, pat, c),
                }
            }
        } else {
            Err("ERR syntax error"@)
        }
    }
}

/// The members whose text matches pattern `p`, in order.
pub open spec fn matching_members(s: Seq<Seq<u8>>, p: Seq<char>) -> Seq<Seq<u8>>
    decreases s.len(),
{
    if s.len() == 0 {
        s
    } else {
        let r = matching_members(s.drop_last(), p);
        if crate::command::pattern::glob_spec(p, key_of(s.last())) {
            r.push(s.last())
        } else {
            r
        }
    }
}

/// SSCAN key cursor [MATCH pattern] [COUNT count]: the members from the
/// cursor on, up to `count` of them, and the cursor that follows (0 at the
/// end).
pub open spec fn sscan_spec(m: Seq<DbView>, db: int, a: Seq<Seq<u8>>, now: u64) -> (Reply, Seq<DbView>) {
    if a.len() < 2 {
        (Reply::Fail(Failure::Arity("SSCAN"@)), m)
    } else {
        match usize_arg(a[1]) {
            None => (Reply::Fail(Failure::Invalid("ERR invalid cursor"@)), m),
            Some(cursor) => match sscan_options(a, 2, None, 10) {
                Err(msg) => (Reply::Fail(Failure::Invalid(msg)), m),
                Ok(o) => set_read(
                    m,
                    db,
                    a,
                    now,
                    |s: Seq<Seq<u8>>|
                        {
                            let filtered = match o.0 {
                                Some(p) => matching_members(s, p),
                                None => s,
                            };
                            let total = filtered.len() as int;
                            let page = if cursor >= total {
                                (0int, Seq::<Seq<u8>>::empty())
                            } else {
                                let end = min_int((cursor + o.1) as int, total);
                                (if end >= total {
                                    0int
                                } else {
                                    end
                                }, filtered.subrange(cursor as int, end))
                            };
                            Reply::Array(
                                seq![
                                    Reply::Bulk(vstd::utf8::encode_utf8(crate::text::decimal_spec(page.0 as nat))),
                                    Reply::Array(bulks(page.1)),
                                ],
                            )
                        },
                ),
            },
        }
    }
}

// ---------------------------------------------------------------------------
// Facts about the set model
// ---------------------------------------------------------------------------

proof fn lemma_push_contains(s: Seq<Seq<u8>>, v: Seq<u8>, x: Seq<u8>)
    ensures
        s.push(v).contains(x) <==> (s.contains(x) || x == v),
{
    if s.push(v).contains(x) {
        let i = choose|i: int| 0 <= i < s.push(v).len() && s.push(v)[i] == x;
        if i < s.len() {
            assert(s[i] == x);
        }
    }
    if s.contains(x) {
        let i = choose|i: int| 0 <= i < s.len() && s[i] == x;
        assert(s.push(v)[i] == x);
    }
    if x == v {
        assert(s.push(v)[s.len() as int] == v);
    }
}

proof fn lemma_keep(s: Seq<Seq<u8>>, other: Seq<Seq<u8>>, inside: bool)
    ensures
        forall|x: Seq<u8>| #[trigger] keep(s, other, inside).contains(x) <==> (s.contains(x) && other.contains(x) == inside),
        distinct(s) ==> distinct(keep(s, other, inside)),
        keep(s, other, inside).len() <= s.len(),
    decreases s.len(),
{
    if s.len() > 0 {
        let p = s.drop_last();
        let last = s.last();
        lemma_keep(p, other, inside);
        let r = keep(p, other, inside);
        assert(s =~= p.push(last));
        assert forall|x: Seq<u8>| #[trigger] keep(s, other, inside).contains(x) <==> (s.contains(x) && other.contains(x) == inside) by {
            lemma_push_contains(p, last, x);
            lemma_push_contains(r, last, x);
        }
        if distinct(s) {
            assert(distinct(p)) by {
                assert forall|i: int, j: int| 0 <= i < j < p.len() implies p[i] != p[j] by {
                    assert(s[i] == p[i] && s[j] == p[j]);
                }
            }
            if other.contains(last) == inside {
                assert(!p.contains(last)) by {
                    if p.contains(last) {
                        let j = choose|j: int| 0 <= j < p.len() && p[j] == last;
                        assert(s[j] == s[s.len() - 1]);
                    }
                }
                assert(!r.contains(last));
                let k = r.push(last);
                assert forall|i: int, j: int| 0 <= i < j < k.len() implies k[i] != k[j] by {
                    if j == k.len() - 1 {
                        assert(r[i] == k[i]);
                        assert(r.contains(k[i]));
                    }
                }
            }
        }
    }
}

/// Adding a member keeps the members distinct, and the member is then
/// held.
pub proof fn law_set_add(s: Seq<Seq<u8>>, x: Seq<u8>)
    requires
        distinct(s),
    ensures
        distinct(set_add(s, x)),
        set_add(s, x).contains(x),
        forall|y: Seq<u8>| #[trigger] set_add(s, x).contains(y) <==> (s.contains(y) || y == x),
{
    let t = set_add(s, x);
    if !s.contains(x) {
        assert(t[s.len() as int] == x);
        assert forall|i: int, j: int| 0 <= i < j < t.len() implies t[i] != t[j] by {
            if j == s.len() {
                assert(s[i] == t[i]);
            }
        }
        assert forall|y: Seq<u8>| #[trigger] t.contains(y) <==> (s.contains(y) || y == x) by {
            if t.contains(y) {
                let i = choose|i: int| 0 <= i < t.len() && t[i] == y;
                if i < s.len() {
                    assert(s[i] == y);
                }
            }
            if s.contains(y) {
                let i = choose|i: int| 0 <= i < s.len() && s[i] == y;
                assert(t[i] == y);
            }
        }
    }
}

/// Removing a member keeps the members distinct, and the member is then
/// no longer held; the others stay.
pub proof fn law_set_remove(s: Seq<Seq<u8>>, x: Seq<u8>)
    requires
        distinct(s),
    ensures
        distinct(set_remove(s, x)),
        !set_remove(s, x).contains(x),
        forall|y: Seq<u8>| y != x ==> (#[trigger] set_remove(s, x).contains(y) <==> s.contains(y)),
{
    lemma_keep(s, seq![x], false);
    assert(seq![x].contains(x)) by {
        assert(seq![x][0] == x);
    }
    assert forall|y: Seq<u8>| y != x implies !seq![x].contains(y) by {
        if seq![x].contains(y) {
            let i = choose|i: int| 0 <= i < 1 && seq![x][i] == y;
        }
    }
}

proof fn lemma_gather_sticks(d: DbView, a: Seq<Seq<u8>>, from: int, k: nat, n: nat, now: u64, op: int)
    requires
        k <= n,
        !(gather_fold(d, a, from, k, now, op) is Acc),
    ensures
        gather_fold(d, a, from, n, now, op) == gather_fold(d, a, from, k, now, op),
    decreases n,
{
    if k < n {
        lemma_gather_sticks(d, a, from, k, (n - 1) as nat, now, op);
    }
}

/// What combining has gathered, as members.
pub open spec fn acc_views(acc: Option<Vec<Vec<u8>>>) -> Option<Seq<Seq<u8>>> {
    match acc {
        Some(v) => Some(bytes_views(v@)),
        None => None,
    }
}

// ---------------------------------------------------------------------------
// Helpers
// ---------------------------------------------------------------------------

/// Whether `v` holds `x`.
pub(crate) fn has_member(v: &Vec<Vec<u8>>, x: &Vec<u8>) -> (r: bool)
    ensures
        r == bytes_views(v@).contains(x@),
{
    let ghost vv = bytes_views(v@);
    let mut i: usize = 0;
    while i < v.len()
        invariant
            i <= v@.len(),
            vv == bytes_views(v@),
            forall|j: int| 0 <= j < i ==> vv[j] != x@,
        decreases v.len() - i,
    {
        if bytes_eq(&v[i], x) {
            proof {
                assert(vv[i as int] == x@);
            }
            return true;
        }
        i = i + 1;
    }
    proof {
        if vv.contains(x@) {
            let j = choose|j: int| 0 <= j < vv.len() && vv[j] == x@;
            assert(vv[j] != x@);
        }
    }
    false
}

proof fn lemma_take_step(s: Seq<Seq<u8>>, i: int)
    requires
        0 <= i < s.len(),
    ensures
        s.take(i + 1).drop_last() == s.take(i),
        s.take(i + 1).last() == s[i],
        s.take(i + 1).len() == i + 1,
{
    assert(s.take(i + 1).drop_last() =~= s.take(i));
}

/// The members of `v` that are (`inside`) or are not in `other`.
fn keep_members(v: &Vec<Vec<u8>>, other: &Vec<Vec<u8>>, inside: bool) -> (r: Vec<Vec<u8>>)
    ensures
        bytes_views(r@) == keep(bytes_views(v@), bytes_views(other@), inside),
{
    let ghost vv = bytes_views(v@);
    let ghost ov = bytes_views(other@);
    let mut out: Vec<Vec<u8>> = Vec::new();
    let mut i: usize = 0;
    proof {
        assert(vv.take(0) =~= Seq::<Seq<u8>>::empty());
        assert(bytes_views(out@) =~= Seq::<Seq<u8>>::empty());
    }
    while i < v.len()
        invariant
            i <= v@.len(),
            vv == bytes_views(v@),
            ov == bytes_views(other@),
            bytes_views(out@) == keep(vv.take(i as int), ov, inside),
        decreases v.len() - i,
    {
        proof {
            lemma_take_step(vv, i as int);
        }
        let ghost before = bytes_views(out@);
        if has_member(other, &v[i]) == inside {
            out.push(copy_bytes(&v[i]));
            proof {
                assert(bytes_views(out@) =~= before.push(vv[i as int]));
            }
        }
        i = i + 1;
    }
    proof {
        assert(vv.take(v@.len() as int) =~= vv);
    }
    out
}

/// `v` with `x` added when absent; tells whether it was new.
pub(crate) fn add_member(v: &mut Vec<Vec<u8>>, x: &Vec<u8>) -> (was_new: bool)
    ensures
        bytes_views(final(v)@) == set_add(bytes_views(old(v)@), x@),
        was_new == !bytes_views(old(v)@).contains(x@),
{
    if has_member(v, x) {
        false
    } else {
        let ghost before = bytes_views(v@);
        v.push(copy_bytes(x));
        proof {
            assert(bytes_views(v@) =~= before.push(x@));
        }
        true
    }
}

/// `v` without `x`.
pub(crate) fn remove_member(v: &Vec<Vec<u8>>, x: &Vec<u8>) -> (r: Vec<Vec<u8>>)
    ensures
        bytes_views(r@) == set_remove(bytes_views(v@), x@),
{
    let mut one: Vec<Vec<u8>> = Vec::new();
    one.push(copy_bytes(x));
    proof {
        assert(bytes_views(one@) =~= seq![x@]);
    }
    keep_members(v, &one, false)
}

/// A copy of `v[from..to]`.
fn copy_members(v: &Vec<Vec<u8>>, from: usize, to: usize) -> (r: Vec<Vec<u8>>)
    requires
        from <= to <= v@.len(),
    ensures
        bytes_views(r@) == bytes_views(v@).subrange(from as int, to as int),
{
    let mut r: Vec<Vec<u8>> = Vec::new();
    let mut i: usize = from;
    while i < to
        invariant
            from <= i <= to,
            to <= v@.len(),
            r@.len() == i - from,
            forall|j: int| 0 <= j < r@.len() ==> #[trigger] r@[j]@ == v@[from + j]@,
        decreases to - i,
    {
        let b = copy_bytes(&v[i]);
        let ghost before = r@;
        r.push(b);
        proof {
            assert forall|j: int| 0 <= j < r@.len() implies #[trigger] r@[j]@ == v@[from + j]@ by {
                if j < before.len() {
                    assert(r@[j] == before[j]);
                }
            }
        }
        i = i + 1;
    }
    proof {
        assert(bytes_views(r@) =~= bytes_views(v@).subrange(from as int, to as int));
    }
    r
}

/// `a` followed by `b`.
fn concat_members(a: Vec<Vec<u8>>, b: Vec<Vec<u8>>) -> (r: Vec<Vec<u8>>)
    ensures
        bytes_views(r@) == bytes_views(a@) + bytes_views(b@),
{
    let mut r = a;
    let mut b = b;
    let ghost av = r@;
    let ghost bv = b@;
    r.append(&mut b);
    proof {
        assert(bytes_views(r@) =~= bytes_views(av) + bytes_views(bv));
    }
    r
}

/// The members of `v` whose text matches `pattern` (see
/// `matching_members`).
fn filter_members(v: &Vec<Vec<u8>>, pattern: &str) -> (r: Vec<Vec<u8>>)
    ensures
        bytes_views(r@) == matching_members(bytes_views(v@), pattern@),
{
    let ghost vv = bytes_views(v@);
    let mut out: Vec<Vec<u8>> = Vec::new();
    let mut i: usize = 0;
    proof {
        assert(vv.take(0) =~= Seq::<Seq<u8>>::empty());
        assert(bytes_views(out@) =~= Seq::<Seq<u8>>::empty());
    }
    while i < v.len()
        invariant
            i <= v@.len(),
            vv == bytes_views(v@),
            bytes_views(out@) == matching_members(vv.take(i as int), pattern@),
        decreases v.len() - i,
    {
        proof {
            lemma_take_step(vv, i as int);
        }
        let text = arg_text(&v[i]);
        let ghost before = bytes_views(out@);
        if crate::command::pattern::glob_match(pattern, text.as_str()) {
            out.push(copy_bytes(&v[i]));
            proof {
                assert(bytes_views(out@) =~= before.push(vv[i as int]));
            }
        }
        i = i + 1;
    }
    proof {
        assert(vv.take(v@.len() as int) =~= vv);
    }
    out
}

/// Bulk-string answers for each member of `v`.
fn bulk_members(v: &Vec<Vec<u8>>) -> (r: RespValue)
    ensures
        crate::command::reply::value_models(r, Reply::Array(bulks(bytes_views(v@)))),
{
    let ghost want = bulks(bytes_views(v@));
    let mut items: Vec<RespValue> = Vec::new();
    let mut i: usize = 0;
    while i < v.len()
        invariant
            i <= v@.len(),
            want == bulks(bytes_views(v@)),
            items@.len() == i,
            forall|j: int| 0 <= j < i ==> crate::command::reply::value_models(#[trigger] items@[j], want[j]),
        decreases v.len() - i,
    {
        items.push(RespValue::bulk_string(copy_bytes(&v[i])));
        i = i + 1;
    }
    RespValue::array(items)
}

/// Handles the set commands against a keyspace.
#[derive(Debug)]
pub struct SetCommands {
    storage: StorageEngine,
}

impl View for SetCommands {
    type V = Seq<DbView>;

    closed spec fn view(&self) -> Seq<DbView> {
        self.storage@
    }
}

impl SetCommands {
    /// The handler's keyspace is well formed.
    pub closed spec fn wf(&self) -> bool {
        self.storage.wf()
    }

    /// A handler over `storage`.
    pub fn new(storage: StorageEngine) -> (r: Self)
        requires
            storage.wf(),
        ensures
            r.wf(),
            r@ == storage@,
    {
        SetCommands { storage }
    }

    /// Gives the keyspace back.
    pub fn into_storage(self) -> (r: StorageEngine)
        requires
            self.wf(),
        ensures
            r.wf(),
            r@ == self@,
    {
        self.storage
    }

    /// The set `args[i]` names, or the empty set; an error when it holds a
    /// value of another kind.
    fn load(&self, args: &[Vec<u8>], i: usize, db: usize, now: u64) -> (r: Result<Option<Vec<Vec<u8>>>, AikvError>)
        requires
            self.wf(),
            i < args@.len(),
            db_ok(self@, db as int),
        ensures
            match set_lookup(self@[db as int], key_of(args@[i as int]@), now) {
                Typed::Absent => r matches Ok(None),
                Typed::Found(s) => r matches Ok(Some(v)) && bytes_views(v@) == s,
                Typed::WrongType => r matches Err(e) && crate::command::reply::error_models(e, Failure::WrongType),
            },
    {
        let key = arg_text(&args[i]);
        self.storage.get_set(db, key.as_str(), now)
    }

    /// Stores `s` under `key`, or removes the key when `s` is empty.
    fn store(&mut self, db: usize, key: String, s: Vec<Vec<u8>>, now: u64)
        requires
            old(self).wf(),
            db_ok(old(self)@, db as int),
        ensures
            final(self).wf(),
            final(self)@ == store_set(old(self)@, db as int, key@, bytes_views(s@)),
    {
        if s.len() == 0 {
            self.storage.delete_from_db(db, key.as_str(), now);
        } else {
            self.storage.set_value(db, key, StoredValue::SetMembers(s), None);
        }
    }

    /// SADD at time `now`.
    pub fn sadd_at(&mut self, args: &[Vec<u8>], db: usize, now: u64) -> (r: Result<RespValue, AikvError>)
        requires
            old(self).wf(),
        ensures
            final(self).wf(),
            outcome_holds(sadd_spec(old(self)@, db as int, arg_views(args@), now), r, final(self)@),
    {
        proof {
            lemma_arg_views(args@);
        }
        if args.len() < 2 {
            return Err(arity_error("SADD"));
        }
        if db >= self.storage.num_dbs() {
            return Err(db_range_error());
        }
        let mut set = match self.load(args, 0, db, now) {
            Ok(Some(v)) => v,
            Ok(None) => {
                let v: Vec<Vec<u8>> = Vec::new();
                proof {
                    assert(bytes_views(v@) =~= Seq::<Seq<u8>>::empty());
                }
                v
            },
            Err(e) => {
                return Err(e);
            },
        };
        let ghost a = arg_views(args@);
        let ghost s0 = bytes_views(set@);
        let mut count: usize = 0;
        let mut i: usize = 1;
        while i < args.len()
            invariant
                1 <= i <= args@.len(),
                args@.len() == args.len(),
                a == arg_views(args@),
                a.len() == args@.len(),
                forall|j: int| 0 <= j < args@.len() ==> #[trigger] a[j] == args@[j]@,
                (bytes_views(set@), count as int) == sadd_fold(s0, a, (i - 1) as nat),
                count < i,
            decreases args.len() - i,
        {
            if add_member(&mut set, &args[i]) {
                count = count + 1;
            }
            i = i + 1;
        }
        let key = arg_text(&args[0]);
        self.storage.set_value(db, key, StoredValue::SetMembers(set), None);
        Ok(RespValue::integer(count as i64))
    }

    /// SADD key member [member ...]: adds the members; answers how many
    /// were new.
    pub fn sadd(&mut self, args: &[Vec<u8>], db: usize) -> (r: Result<RespValue, AikvError>)
        requires
            old(self).wf(),
        ensures
            final(self).wf(),
            exists|now: u64| outcome_holds(sadd_spec(old(self)@, db as int, arg_views(args@), now), r, final(self)@),
    {
        let now = unix_time_millis();
        self.sadd_at(args, db, now)
    }

    /// SREM at time `now`.
    pub fn srem_at(&mut self, args: &[Vec<u8>], db: usize, now: u64) -> (r: Result<RespValue, AikvError>)
        requires
            old(self).wf(),
        ensures
            final(self).wf(),
            outcome_holds(srem_spec(old(self)@, db as int, arg_views(args@), now), r, final(self)@),
    {
        proof {
            lemma_arg_views(args@);
        }
        if args.len() < 2 {
            return Err(arity_error("SREM"));
        }
        if db >= self.storage.num_dbs() {
            return Err(db_range_error());
        }
        let mut set = match self.load(args, 0, db, now) {
            Ok(Some(v)) => v,
            Ok(None) => {
                return Ok(RespValue::integer(0));
            },
            Err(e) => {
                return Err(e);
            },
        };
        let ghost a = arg_views(args@);
        let ghost s0 = bytes_views(set@);
        let mut count: usize = 0;
        let mut i: usize = 1;
        while i < args.len()
            invariant
                1 <= i <= args@.len(),
                args@.len() == args.len(),
                a == arg_views(args@),
                a.len() == args@.len(),
                forall|j: int| 0 <= j < args@.len() ==> #[trigger] a[j] == args@[j]@,
                (bytes_views(set@), count as int) == srem_fold(s0, a, (i - 1) as nat),
                count < i,
            decreases args.len() - i,
        {
            if has_member(&set, &args[i]) {
                set = remove_member(&set, &args[i]);
                count = count + 1;
            }
            i = i + 1;
        }
        let key = arg_text(&args[0]);
        self.store(db, key, set, now);
        Ok(RespValue::integer(count as i64))
    }

    /// SREM key member [member ...]: removes the members; answers how many
    /// were present. A set left empty is removed.
    pub fn srem(&mut self, args: &[Vec<u8>], db: usize) -> (r: Result<RespValue, AikvError>)
        requires
            old(self).wf(),
        ensures
            final(self).wf(),
            exists|now: u64| outcome_holds(srem_spec(old(self)@, db as int, arg_views(args@), now), r, final(self)@),
    {
        let now = unix_time_millis();
        self.srem_at(args, db, now)
    }

    /// The set `args[0]` names for a read: the errors for a bad database
    /// or a value of another kind.
    fn read(&self, args: &[Vec<u8>], db: usize, now: u64) -> (r: Result<Vec<Vec<u8>>, AikvError>)
        requires
            self.wf(),
            args@.len() >= 1,
        ensures
            !db_ok(self@, db as int) ==> (r matches Err(e) && crate::command::reply::error_models(e, Failure::DbRange)),
            db_ok(self@, db as int) ==> {
                let t = set_lookup(self@[db as int], key_of(args@[0]@), now);
                if t is WrongType {
                    (r matches Err(e) && crate::command::reply::error_models(e, Failure::WrongType))
                } else {
                    (r matches Ok(v) && bytes_views(v@) == set_or_empty(t))
                }
            },
    {
        if db >= self.storage.num_dbs() {
            return Err(db_range_error());
        }
        match self.load(args, 0, db, now) {
            Ok(Some(v)) => Ok(v),
            Ok(None) => {
                let v: Vec<Vec<u8>> = Vec::new();
                proof {
                    assert(bytes_views(v@) =~= Seq::<Seq<u8>>::empty());
                }
                Ok(v)
            },
            Err(e) => Err(e),
        }
    }

    /// SISMEMBER at time `now`.
    pub fn sismember_at(&self, args: &[Vec<u8>], db: usize, now: u64) -> (r: Result<RespValue, AikvError>)
        requires
            self.wf(),
        ensures
            outcome_holds(sismember_spec(self@, db as int, arg_views(args@), now), r, self@),
    {
        proof {
            lemma_arg_views(args@);
        }
        if args.len() != 2 {
            return Err(arity_error("SISMEMBER"));
        }
        let set = match self.read(args, db, now) {
            Ok(v) => v,
            Err(e) => {
                return Err(e);
            },
        };
        Ok(RespValue::integer(
            if has_member(&set, &args[1]) {
                1
            } else {
                0
            },
        ))
    }

    /// SISMEMBER key member: 1 when the set holds the member, else 0.
    pub fn sismember(&self, args: &[Vec<u8>], db: usize) -> (r: Result<RespValue, AikvError>)
        requires
            self.wf(),
        ensures
            exists|now: u64| outcome_holds(sismember_spec(self@, db as int, arg_views(args@), now), r, self@),
    {
        let now = unix_time_millis();
        self.sismember_at(args, db, now)
    }

    /// SMEMBERS at time `now`.
    pub fn smembers_at(&self, args: &[Vec<u8>], db: usize, now: u64) -> (r: Result<RespValue, AikvError>)
        requires
            self.wf(),
        ensures
            outcome_holds(smembers_spec(self@, db as int, arg_views(args@), now), r, self@),
    {
        if args.len() != 1 {
            return Err(arity_error("SMEMBERS"));
        }
        let set = match self.read(args, db, now) {
            Ok(v) => v,
            Err(e) => {
                return Err(e);
            },
        };
        Ok(bulk_members(&set))
    }

    /// SMEMBERS key: the members.
    pub fn smembers(&self, args: &[Vec<u8>], db: usize) -> (r: Result<RespValue, AikvError>)
        requires
            self.wf(),
        ensures
            exists|now: u64| outcome_holds(smembers_spec(self@, db as int, arg_views(args@), now), r, self@),
    {
        let now = unix_time_millis();
        self.smembers_at(args, db, now)
    }

    /// SCARD at time `now`.
    pub fn scard_at(&self, args: &[Vec<u8>], db: usize, now: u64) -> (r: Result<RespValue, AikvError>)
        requires
            self.wf(),
        ensures
            outcome_holds(scard_spec(self@, db as int, arg_views(args@), now), r, self@),
    {
        if args.len() != 1 {
            return Err(arity_error("SCARD"));
        }
        let set = match self.read(args, db, now) {
            Ok(v) => v,
            Err(e) => {
                return Err(e);
            },
        };
        Ok(RespValue::integer(set.len() as i64))
    }

    /// SCARD key: the number of members.
    pub fn scard(&self, args: &[Vec<u8>], db: usize) -> (r: Result<RespValue, AikvError>)
        requires
            self.wf(),
        ensures
            exists|now: u64| outcome_holds(scard_spec(self@, db as int, arg_views(args@), now), r, self@),
    {
        let now = unix_time_millis();
        self.scard_at(args, db, now)
    }

    /// SPOP at time `now`.
    pub fn spop_at(&mut self, args: &[Vec<u8>], db: usize, now: u64) -> (r: Result<RespValue, AikvError>)
        requires
            old(self).wf(),
        ensures
            final(self).wf(),
            outcome_holds(spop_spec(old(self)@, db as int, arg_views(args@), now), r, final(self)@),
    {
        proof {
            lemma_arg_views(args@);
        }
        if args.len() == 0 {
            return Err(arity_error("SPOP"));
        }
        let count: usize = if args.len() > 1 {
            match arg_usize(&args[1]) {
                Some(c) => c,
                None => {
                    return Err(invalid_error("invalid count"));
                },
            }
        } else {
            1
        };
        if db >= self.storage.num_dbs() {
            return Err(db_range_error());
        }
        let set = match self.load(args, 0, db, now) {
            Ok(Some(v)) => v,
            Ok(None) => {
                return Ok(RespValue::Null);
            },
            Err(e) => {
                return Err(e);
            },
        };
        let ghost sv = bytes_views(set@);
        let len = set.len();
        let k = if count < len {
            count
        } else {
            len
        };
        let popped = copy_members(&set, 0, k);
        let rest = copy_members(&set, k, len);
        proof {
            assert(sv.subrange(0, k as int) =~= sv.take(k as int));
            assert(sv.subrange(k as int, len as int) =~= sv.skip(k as int));
        }
        let key = arg_text(&args[0]);
        self.store(db, key, rest, now);
        if popped.len() == 0 {
            Ok(RespValue::Null)
        } else if count == 1 {
            Ok(RespValue::bulk_string(copy_bytes(&popped[0])))
        } else {
            Ok(bulk_members(&popped))
        }
    }

    /// SPOP key [count]: removes and answers members.
    pub fn spop(&mut self, args: &[Vec<u8>], db: usize) -> (r: Result<RespValue, AikvError>)
        requires
            old(self).wf(),
        ensures
            final(self).wf(),
            exists|now: u64| outcome_holds(spop_spec(old(self)@, db as int, arg_views(args@), now), r, final(self)@),
    {
        let now = unix_time_millis();
        self.spop_at(args, db, now)
    }

    /// SRANDMEMBER at time `now`.
    pub fn srandmember_at(&self, args: &[Vec<u8>], db: usize, now: u64) -> (r: Result<RespValue, AikvError>)
        requires
            self.wf(),
        ensures
            outcome_holds(srandmember_spec(self@, db as int, arg_views(args@), now), r, self@),
    {
        proof {
            lemma_arg_views(args@);
        }
        if args.len() == 0 {
            return Err(arity_error("SRANDMEMBER"));
        }
        let count: i64 = if args.len() > 1 {
            match arg_i64(&args[1]) {
                Some(c) => c,
                None => {
                    return Err(invalid_error("invalid count"));
                },
            }
        } else {
            1
        };
        let set = match self.read(args, db, now) {
            Ok(v) => v,
            Err(e) => {
                return Err(e);
            },
        };
        let len = set.len();
        let magnitude: u64 = if count >= 0 {
            count as u64
        } else {
            ((-(count + 1)) as u64) + 1
        };
        let k: usize = if magnitude >= len as u64 {
            len
        } else {
            magnitude as usize
        };
        let members = copy_members(&set, 0, k);
        proof {
            assert(bytes_views(set@).subrange(0, k as int) =~= bytes_views(set@).take(k as int));
        }
        if members.len() == 0 && args.len() == 1 {
            Ok(RespValue::Null)
        } else if count == 1 && args.len() == 1 {
            Ok(RespValue::bulk_string(copy_bytes(&members[0])))
        } else {
            Ok(bulk_members(&members))
        }
    }

    /// SRANDMEMBER key [count]: members without removing them.
    pub fn srandmember(&self, args: &[Vec<u8>], db: usize) -> (r: Result<RespValue, AikvError>)
        requires
            self.wf(),
        ensures
            exists|now: u64| outcome_holds(srandmember_spec(self@, db as int, arg_views(args@), now), r, self@),
    {
        let now = unix_time_millis();
        self.srandmember_at(args, db, now)
    }

    /// SUNION, SINTER or SDIFF (`op` 0, 1, 2), or their STORE forms, at time
    /// `now`.
    pub fn combine_at(&mut self, args: &[Vec<u8>], db: usize, now: u64, op: u8, store: bool) -> (r: Result<
        RespValue,
        AikvError,
    >)
        requires
            old(self).wf(),
            op <= 2,
        ensures
            final(self).wf(),
            outcome_holds(combine_spec(old(self)@, db as int, arg_views(args@), now, op as int, store), r, final(self)@),
    {
        proof {
            lemma_arg_views(args@);
        }
        let from: usize = if store {
            1
        } else {
            0
        };
        if args.len() < from + 1 {
            return Err(arity_error(
                if op == 0 {
                    if store {
                        "SUNIONSTORE"
                    } else {
                        "SUNION"
                    }
                } else if op == 1 {
                    if store {
                        "SINTERSTORE"
                    } else {
                        "SINTER"
                    }
                } else {
                    if store {
                        "SDIFFSTORE"
                    } else {
                        "SDIFF"
                    }
                },
            ));
        }
        if db >= self.storage.num_dbs() {
            return Err(db_range_error());
        }
        let ghost a = arg_views(args@);
        let ghost d = self@[db as int];
        let ghost n = (a.len() - from) as nat;
        let mut acc: Option<Vec<Vec<u8>>> = if op == 0 {
            let v: Vec<Vec<u8>> = Vec::new();
            proof {
                assert(bytes_views(v@) =~= Seq::<Seq<u8>>::empty());
            }
            Some(v)
        } else {
            None
        };
        let mut stopped = false;
        let mut i: usize = from;
        while i < args.len() && !stopped
            invariant
                from <= i <= args@.len(),
                args@.len() == args.len(),
                a == arg_views(args@),
                a.len() == args@.len(),
                forall|j: int| 0 <= j < args@.len() ==> #[trigger] a[j] == args@[j]@,
                self.wf(),
                db_ok(self@, db as int),
                d == self@[db as int],
                n == (a.len() - from) as nat,
                from == (if store {
                    1usize
                } else {
                    0usize
                }),
                self@ == old(self)@,
                op <= 2,
                stopped ==> gather_fold(d, a, from as int, (i - from) as nat, now, op as int) == Gather::Stopped,
                !stopped ==> gather_fold(d, a, from as int, (i - from) as nat, now, op as int) == Gather::Acc(acc_views(acc)),
            decreases args.len() - i,
        {
            let ghost before = acc_views(acc);
            match self.load(args, i, db, now) {
                Err(e) => {
                    proof {
                        let k1 = (i + 1 - from) as nat;
                        assert((k1 - 1) as nat == (i - from) as nat);
                        assert(from + k1 - 1 == i);
                        assert(set_lookup(d, key_of(a[i as int]), now) is WrongType);
                        assert(gather_fold(d, a, from as int, k1, now, op as int) == Gather::Failed);
                        lemma_gather_sticks(d, a, from as int, k1, n, now, op as int);
                    }
                    return Err(e);
                },
                Ok(None) => {
                    if op == 1 {
                        stopped = true;
                    } else if op == 2 {
                        if acc.is_none() {
                            let v: Vec<Vec<u8>> = Vec::new();
                            proof {
                                assert(bytes_views(v@) =~= Seq::<Seq<u8>>::empty());
                            }
                            acc = Some(v);
                        }
                    }
                },
                Ok(Some(s)) => {
                    let next = match acc {
                        None => s,
                        Some(x) => if op == 0 {
                            let fresh = keep_members(&s, &x, false);
                            concat_members(x, fresh)
                        } else if op == 1 {
                            keep_members(&x, &s, true)
                        } else {
                            keep_members(&x, &s, false)
                        },
                    };
                    acc = Some(next);
                },
            }
            proof {
                assert((i + 1 - from) as nat - 1 == (i - from) as nat);
            }
            i = i + 1;
        }
        proof {
            if stopped {
                lemma_gather_sticks(d, a, from as int, (i - from) as nat, n, now, op as int);
            }
        }
        let empty: Vec<Vec<u8>> = Vec::new();
        proof {
            assert(bytes_views(empty@) =~= Seq::<Seq<u8>>::empty());
        }
        let result: Vec<Vec<u8>> = if stopped {
            empty
        } else {
            match acc {
                Some(v) => v,
                None => empty,
            }
        };
        if store {
            let count = result.len();
            let key = arg_text(&args[0]);
            self.storage.set_value(db, key, StoredValue::SetMembers(result), None);
            Ok(RespValue::integer(count as i64))
        } else {
            Ok(bulk_members(&result))
        }
    }

    /// SUNION key [key ...]: the members of any of the sets.
    pub fn sunion(&mut self, args: &[Vec<u8>], db: usize) -> (r: Result<RespValue, AikvError>)
        requires
            old(self).wf(),
        ensures
            final(self).wf(),
            exists|now: u64| outcome_holds(combine_spec(old(self)@, db as int, arg_views(args@), now, 0, false), r, final(self)@),
    {
        let now = unix_time_millis();
        self.combine_at(args, db, now, 0, false)
    }

    /// SINTER key [key ...]: the members of all of the sets.
    pub fn sinter(&mut self, args: &[Vec<u8>], db: usize) -> (r: Result<RespValue, AikvError>)
        requires
            old(self).wf(),
        ensures
            final(self).wf(),
            exists|now: u64| outcome_holds(combine_spec(old(self)@, db as int, arg_views(args@), now, 1, false), r, final(self)@),
    {
        let now = unix_time_millis();
        self.combine_at(args, db, now, 1, false)
    }

    /// SDIFF key [key ...]: the first set's members that no later set holds.
    pub fn sdiff(&mut self, args: &[Vec<u8>], db: usize) -> (r: Result<RespValue, AikvError>)
        requires
            old(self).wf(),
        ensures
            final(self).wf(),
            exists|now: u64| outcome_holds(combine_spec(old(self)@, db as int, arg_views(args@), now, 2, false), r, final(self)@),
    {
        let now = unix_time_millis();
        self.combine_at(args, db, now, 2, false)
    }

    /// SUNIONSTORE destination key [key ...]: stores the union; answers its
    /// size.
    pub fn sunionstore(&mut self, args: &[Vec<u8>], db: usize) -> (r: Result<RespValue, AikvError>)
        requires
            old(self).wf(),
        ensures
            final(self).wf(),
            exists|now: u64| outcome_holds(combine_spec(old(self)@, db as int, arg_views(args@), now, 0, true), r, final(self)@),
    {
        let now = unix_time_millis();
        self.combine_at(args, db, now, 0, true)
    }

    /// SINTERSTORE destination key [key ...]: stores the intersection;
    /// answers its size.
    pub fn sinterstore(&mut self, args: &[Vec<u8>], db: usize) -> (r: Result<RespValue, AikvError>)
        requires
            old(self).wf(),
        ensures
            final(self).wf(),
            exists|now: u64| outcome_holds(combine_spec(old(self)@, db as int, arg_views(args@), now, 1, true), r, final(self)@),
    {
        let now = unix_time_millis();
        self.combine_at(args, db, now, 1, true)
    }

    /// SDIFFSTORE destination key [key ...]: stores the difference; answers
    /// its size.
    pub fn sdiffstore(&mut self, args: &[Vec<u8>], db: usize) -> (r: Result<RespValue, AikvError>)
        requires
            old(self).wf(),
        ensures
            final(self).wf(),
            exists|now: u64| outcome_holds(combine_spec(old(self)@, db as int, arg_views(args@), now, 2, true), r, final(self)@),
    {
        let now = unix_time_millis();
        self.combine_at(args, db, now, 2, true)
    }

    /// SMOVE at time `now`.
    pub fn smove_at(&mut self, args: &[Vec<u8>], db: usize, now: u64) -> (r: Result<RespValue, AikvError>)
        requires
            old(self).wf(),
        ensures
            final(self).wf(),
            outcome_holds(smove_spec(old(self)@, db as int, arg_views(args@), now), r, final(self)@),
    {
        proof {
            lemma_arg_views(args@);
        }
        if args.len() != 3 {
            return Err(arity_error("SMOVE"));
        }
        if db >= self.storage.num_dbs() {
            return Err(db_range_error());
        }
        let source = arg_text(&args[0]);
        let dest = arg_text(&args[1]);
        let src = match self.load(args, 0, db, now) {
            Ok(Some(v)) => v,
            Ok(None) => {
                return Ok(RespValue::integer(0));
            },
            Err(e) => {
                return Err(e);
            },
        };
        if !has_member(&src, &args[2]) {
            return Ok(RespValue::integer(0));
        }
        let mut rest = remove_member(&src, &args[2]);
        if str_eq(source.as_str(), dest.as_str()) {
            add_member(&mut rest, &args[2]);
            self.storage.set_value(db, dest, StoredValue::SetMembers(rest), None);
            return Ok(RespValue::integer(1));
        }
        let mut dst = match self.load(args, 1, db, now) {
            Ok(Some(v)) => v,
            Ok(None) => {
                let v: Vec<Vec<u8>> = Vec::new();
                proof {
                    assert(bytes_views(v@) =~= Seq::<Seq<u8>>::empty());
                }
                v
            },
            Err(e) => {
                return Err(e);
            },
        };
        add_member(&mut dst, &args[2]);
        self.store(db, source, rest, now);
        self.storage.set_value(db, dest, StoredValue::SetMembers(dst), None);
        Ok(RespValue::integer(1))
    }

    /// SMOVE source destination member: moves the member; answers 1 when
    /// it did.
    pub fn smove(&mut self, args: &[Vec<u8>], db: usize) -> (r: Result<RespValue, AikvError>)
        requires
            old(self).wf(),
        ensures
            final(self).wf(),
            exists|now: u64| outcome_holds(smove_spec(old(self)@, db as int, arg_views(args@), now), r, final(self)@),
    {
        let now = unix_time_millis();
        self.smove_at(args, db, now)
    }

    /// SSCAN at time `now`.
    pub fn sscan_at(&self, args: &[Vec<u8>], db: usize, now: u64) -> (r: Result<RespValue, AikvError>)
        requires
            self.wf(),
        ensures
            outcome_holds(sscan_spec(self@, db as int, arg_views(args@), now), r, self@),
    {
        proof {
            lemma_arg_views(args@);
        }
        if args.len() < 2 {
            return Err(arity_error("SSCAN"));
        }
        let cursor = match arg_usize(&args[1]) {
            Some(c) => c,
            None => {
                return Err(invalid_error("ERR invalid cursor"));
            },
        };
        let ghost a = arg_views(args@);
        let mut pattern: Option<String> = None;
        let mut count: usize = 10;
        let mut i: usize = 2;
        while i < args.len()
            invariant
                2 <= i <= args@.len(),
                args@.len() == args.len(),
                usize_arg(a[1]) == Some(cursor as nat),
                a == arg_views(args@),
                a.len() == args@.len(),
                forall|j: int| 0 <= j < args@.len() ==> #[trigger] a[j] == args@[j]@,
                sscan_options(a, 2, None, 10) == sscan_options(
                    a,
                    i as int,
                    match pattern {
                        Some(p) => Some(p@),
                        None => None,
                    },
                    count as nat,
                ),
            decreases args.len() - i,
        {
            let opt = arg_option(&args[i]);
            if str_eq(opt.as_str(), "MATCH") {
                if i + 1 >= args.len() {
                    return Err(invalid_error("ERR syntax error"));
                }
                pattern = Some(arg_text(&args[i + 1]));
            } else if str_eq(opt.as_str(), "COUNT") {
                if i + 1 >= args.len() {
                    return Err(invalid_error("ERR syntax error"));
                }
                count = match arg_usize(&args[i + 1]) {
                    Some(c) => c,
                    None => {
                        return Err(invalid_error("ERR value is not an integer or out of range"));
                    },
                };
            } else {
                return Err(invalid_error("ERR syntax error"));
            }
            i = i + 2;
        }
        let set = match self.read(args, db, now) {
            Ok(v) => v,
            Err(e) => {
                return Err(e);
            },
        };
        let filtered = match &pattern {
            Some(p) => filter_members(&set, p.as_str()),
            None => set,
        };
        let total = filtered.len();
        let (next, page) = if cursor >= total {
            let v: Vec<Vec<u8>> = Vec::new();
            proof {
                assert(bytes_views(v@) =~= Seq::<Seq<u8>>::empty());
            }
            (0usize, v)
        } else {
            let end = if count >= total - cursor {
                total
            } else {
                cursor + count
            };
            (
                if end >= total {
                    0
                } else {
                    end
                },
                copy_members(&filtered, cursor, end),
            )
        };
        let head = RespValue::bulk_string(text_bytes(crate::text::u64_to_decimal(next as u64).as_str()));
        let inner = bulk_members(&page);
        let ghost want = seq![
            Reply::Bulk(vstd::utf8::encode_utf8(crate::text::decimal_spec(next as nat))),
            Reply::Array(bulks(bytes_views(page@))),
        ];
        let mut items: Vec<RespValue> = Vec::new();
        items.push(head);
        items.push(inner);
        proof {
            assert forall|j: int| 0 <= j < 2 implies crate::command::reply::value_models(#[trigger] items@[j], want[j]) by {}
        }
        Ok(RespValue::array(items))
    }

    /// SSCAN key cursor [MATCH pattern] [COUNT count]: the next page of
    /// members and the cursor that follows it.
    pub fn sscan(&self, args: &[Vec<u8>], db: usize) -> (r: Result<RespValue, AikvError>)
        requires
            self.wf(),
        ensures
            exists|now: u64| outcome_holds(sscan_spec(self@, db as int, arg_views(args@), now), r, self@),
    {
        let now = unix_time_millis();
        self.sscan_at(args, db, now)
    }
}

} // verus!