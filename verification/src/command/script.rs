//! Key-level locks that let scripts on different keys run side by side
//! while scripts that share a key run one at a time.
//!
//! The lock table records, for each key, how many hold it and the line of
//! callers that wait for it, first come first. A request takes all of its
//! keys at once, in one fixed order and each key once, or none of them,
//! and only when nobody who came before it waits for any of them. Waiting
//! for a key to come free is the part of whoever shares the table between
//! threads: it calls the steps below under its own mutex.
use crate::command::reply::{
    arg_usize, arg_views, error_models, lemma_arg_views, usize_arg, arg_text, arity_error, invalid_error, key_of, models, ok_reply, option_of, text_bytes, value_models, Failure, Reply,
};
use crate::protocol::RespValue;
use crate::storage::StorageEngine;
use crate::command::script_txn::{call_holds, committed, script_call, script_call_spec, ScriptArg, ScriptTransaction};
use crate::text::push_hex_fixed;
use crate::error::AikvError;
use crate::keyed::{
    distinct_keys, has_key, lemma_key_index, lemma_pairs_push, lemma_pairs_remove, lemma_pairs_update, map_of_pairs,
};
use crate::order::{bytes_before, bytes_lt, law_bytes_order};
use crate::text::{push_str, str_eq, string_of};
use std::time::Duration;
use vstd::prelude::*;
use vstd::utf8::encode_utf8;

verus! {

/// How many hold a key, and the tickets of the callers that wait for it in
/// the order they came.
pub type LockState = (nat, Seq<u64>);

/// One key's lock.
struct LockEntry {
    key: String,
    holders: usize,
    queue: Vec<u64>,
}

/// The key-level lock table of the script engine.
pub struct KeyLockManager {
    locks: Vec<LockEntry>,
    next_ticket: u64,
    timeout: Duration,
}

/// The keys a successful `lock_keys` took, to hand back to `release`.
pub struct KeyLockGuard {
    keys: Vec<String>,
}

// ---------------------------------------------------------------------------
// The table as a map
// ---------------------------------------------------------------------------

spec fn entry_views(v: Seq<LockEntry>) -> Seq<(Seq<char>, LockState)> {
    v.map_values(|e: LockEntry| (e.key@, (e.holders as nat, e.queue@)))
}

/// Holders of `k` (none when the table has no entry for it).
pub open spec fn holders(m: Map<Seq<char>, LockState>, k: Seq<char>) -> nat {
    if m.contains_key(k) {
        m[k].0
    } else {
        0
    }
}

/// The tickets of the callers waiting for `k`, first come first.
pub open spec fn queue(m: Map<Seq<char>, LockState>, k: Seq<char>) -> Seq<u64> {
    if m.contains_key(k) {
        m[k].1
    } else {
        Seq::empty()
    }
}

/// How many wait for `k`.
pub open spec fn waiters(m: Map<Seq<char>, LockState>, k: Seq<char>) -> nat {
    queue(m, k).len()
}

/// A count plus one, held at the largest machine count.
pub open spec fn bump(n: nat) -> nat {
    if n < usize::MAX {
        n + 1
    } else {
        n
    }
}

/// The tickets rise strictly.
pub open spec fn ascending(q: Seq<u64>) -> bool {
    forall|i: int, j: int| 0 <= i < j < q.len() ==> q[i] < q[j]
}

/// The table is well formed for a counter at `next`: every entry has a
/// holder or a waiter, and every line holds tickets below `next` in the
/// order they were handed out.
pub open spec fn table_ok(m: Map<Seq<char>, LockState>, next: u64) -> bool {
    forall|k: Seq<char>|
        #[trigger] m.contains_key(k) ==> {
            &&& (m[k].0 > 0 || m[k].1.len() > 0)
            &&& ascending(m[k].1)
            &&& forall|i: int| 0 <= i < m[k].1.len() ==> m[k].1[i] < next
        }
}

/// No key of `keys` has a holder.
pub open spec fn all_free(m: Map<Seq<char>, LockState>, keys: Seq<Seq<char>>) -> bool {
    forall|i: int| 0 <= i < keys.len() ==> holders(m, #[trigger] keys[i]) == 0
}

/// It is the turn of the caller holding `ticket` (of a newcomer, for
/// `None`) to take `keys`: no key has a holder, and nobody who came before
/// waits for any of them: a waiter is first in line for each key, and a
/// newcomer finds no line at all.
pub open spec fn may_take(m: Map<Seq<char>, LockState>, keys: Seq<Seq<char>>, ticket: Option<u64>) -> bool {
    forall|i: int|
        0 <= i < keys.len() ==> {
            &&& holders(m, #[trigger] keys[i]) == 0
            &&& (queue(m, keys[i]).len() == 0 || (ticket matches Some(t) && queue(m, keys[i])[0] == t))
        }
}

/// The table after each key of `keys` in turn gains a holder.
pub open spec fn locked_after(m: Map<Seq<char>, LockState>, keys: Seq<Seq<char>>) -> Map<Seq<char>, LockState>
    decreases keys.len(),
{
    if keys.len() == 0 {
        m
    } else {
        let p = locked_after(m, keys.drop_last());
        let k = keys.last();
        p.insert(k, (bump(holders(p, k)), queue(p, k)))
    }
}

/// The table after the caller with ticket `t` joins the end of the line of
/// each key of `keys` (once per key).
pub open spec fn queued_after(m: Map<Seq<char>, LockState>, keys: Seq<Seq<char>>, t: u64) -> Map<
    Seq<char>,
    LockState,
>
    decreases keys.len(),
{
    if keys.len() == 0 {
        m
    } else {
        let p = queued_after(m, keys.drop_last(), t);
        let k = keys.last();
        let q = queue(p, k);
        if q.len() > 0 && q.last() == t {
            p
        } else {
            p.insert(k, (holders(p, k), q.push(t)))
        }
    }
}

/// The line `q` without ticket `t`.
pub open spec fn without(q: Seq<u64>, t: u64) -> Seq<u64>
    decreases q.len(),
{
    if q.len() == 0 {
        q
    } else {
        let r = without(q.drop_last(), t);
        if q.last() == t {
            r
        } else {
            r.push(q.last())
        }
    }
}

/// The table after the caller with ticket `t` leaves the line of each key
/// of `keys`; an entry left with neither holders nor waiters goes.
pub open spec fn left_after(m: Map<Seq<char>, LockState>, keys: Seq<Seq<char>>, t: u64) -> Map<Seq<char>, LockState>
    decreases keys.len(),
{
    if keys.len() == 0 {
        m
    } else {
        let p = left_after(m, keys.drop_last(), t);
        let k = keys.last();
        if p.contains_key(k) {
            let q = without(p[k].1, t);
            if p[k].0 == 0 && q.len() == 0 {
                p.remove(k)
            } else {
                p.insert(k, (p[k].0, q))
            }
        } else {
            p
        }
    }
}

/// The table after the caller holding `ticket` (a newcomer, for `None`)
/// takes `keys`: it leaves their lines, and each gains a holder.
pub open spec fn taken_after(m: Map<Seq<char>, LockState>, keys: Seq<Seq<char>>, ticket: Option<u64>) -> Map<
    Seq<char>,
    LockState,
> {
    match ticket {
        Some(t) => locked_after(left_after(m, keys, t), keys),
        None => locked_after(m, keys),
    }
}

/// The table after each key of `keys` that has an entry loses a holder;
/// an entry left with neither holders nor waiters goes.
pub open spec fn unlocked_after(m: Map<Seq<char>, LockState>, keys: Seq<Seq<char>>) -> Map<Seq<char>, LockState>
    decreases keys.len(),
{
    if keys.len() == 0 {
        m
    } else {
        let p = unlocked_after(m, keys.drop_last());
        let k = keys.last();
        if p.contains_key(k) {
            let h: nat = if p[k].0 > 0 {
                (p[k].0 - 1) as nat
            } else {
                0
            };
            if h == 0 && p[k].1.len() == 0 {
                p.remove(k)
            } else {
                p.insert(k, (h, p[k].1))
            }
        } else {
            p
        }
    }
}

// ---------------------------------------------------------------------------
// The order keys are taken in
// ---------------------------------------------------------------------------

/// Whether key `x` orders before key `y`: the order of their UTF-8 bytes.
pub open spec fn key_before(x: Seq<char>, y: Seq<char>) -> bool {
    bytes_lt(encode_utf8(x), encode_utf8(y))
}

/// `k` put into `s` before the first key that does not order before it,
/// unless `s` holds it already.
pub open spec fn insert_key(s: Seq<Seq<char>>, k: Seq<char>) -> Seq<Seq<char>>
    decreases s.len(),
{
    if s.len() == 0 {
        seq![k]
    } else if s[0] == k {
        s
    } else if key_before(s[0], k) {
        seq![s[0]] + insert_key(s.drop_first(), k)
    } else {
        seq![k] + s
    }
}

/// The keys of `keys`, each once, in key order.
pub open spec fn ordered_keys(keys: Seq<Seq<char>>) -> Seq<Seq<char>>
    decreases keys.len(),
{
    if keys.len() == 0 {
        keys
    } else {
        insert_key(ordered_keys(keys.drop_last()), keys.last())
    }
}

/// The keys are in strictly increasing key order.
pub open spec fn keys_ascending(s: Seq<Seq<char>>) -> bool {
    forall|i: int, j: int| 0 <= i < j < s.len() ==> key_before(#[trigger] s[i], #[trigger] s[j])
}

/// The text of each string.
pub open spec fn key_views(v: Seq<String>) -> Seq<Seq<char>> {
    v.map_values(|s: String| s@)
}

// ---------------------------------------------------------------------------
// Facts
// ---------------------------------------------------------------------------

proof fn lemma_keys_take_step(s: Seq<Seq<char>>, i: int)
    requires
        0 <= i < s.len(),
    ensures
        s.take(i + 1).drop_last() == s.take(i),
        s.take(i + 1).last() == s[i],
{
    assert(s.take(i + 1).drop_last() =~= s.take(i));
}

/// Where `insert_key` puts `k`: after the `j` leading keys that order
/// before it; not at all when the key at `j` is `k`.
proof fn lemma_insert_key_at(s: Seq<Seq<char>>, k: Seq<char>, j: int)
    requires
        0 <= j <= s.len(),
        forall|i: int| 0 <= i < j ==> key_before(#[trigger] s[i], k),
        j < s.len() ==> !key_before(s[j], k),
    ensures
        j < s.len() && s[j] == k ==> insert_key(s, k) == s,
        !(j < s.len() && s[j] == k) ==> insert_key(s, k) == s.insert(j, k),
    decreases j,
{
    if j == 0 {
        if s.len() == 0 {
            assert(s.insert(0, k) =~= seq![k]);
        } else if s[0] != k {
            assert(s.insert(0, k) =~= seq![k] + s);
        }
    } else {
        let t = s.drop_first();
        law_bytes_order(encode_utf8(s[0]), encode_utf8(s[0]), encode_utf8(s[0]));
        assert(s[0] != k);
        assert forall|i: int| 0 <= i < j - 1 implies key_before(#[trigger] t[i], k) by {
            assert(t[i] == s[i + 1]);
        }
        if j - 1 < t.len() {
            assert(t[j - 1] == s[j]);
        }
        lemma_insert_key_at(t, k, j - 1);
        if !(j < s.len() && s[j] == k) {
            assert(s.insert(j, k) =~= seq![s[0]] + t.insert(j - 1, k));
        } else {
            assert(s =~= seq![s[0]] + t);
        }
    }
}

/// Where `insert_key` puts `k`, as `lemma_insert_key_at` describes it.
proof fn lemma_insert_key_position(s: Seq<Seq<char>>, k: Seq<char>) -> (j: int)
    ensures
        0 <= j <= s.len(),
        forall|i: int| 0 <= i < j ==> key_before(#[trigger] s[i], k),
        j < s.len() ==> !key_before(s[j], k),
    decreases s.len(),
{
    if s.len() == 0 {
        0
    } else if key_before(s[0], k) {
        let t = s.drop_first();
        let j = lemma_insert_key_position(t, k);
        assert forall|i: int| 0 <= i < j + 1 implies key_before(#[trigger] s[i], k) by {
            if i > 0 {
                assert(s[i] == t[i - 1]);
            }
        }
        if j + 1 < s.len() {
            assert(s[j + 1] == t[j]);
        }
        j + 1
    } else {
        0
    }
}

/// Keys order as their UTF-8 bytes do: strictly, totally, transitively.
proof fn lemma_key_order(x: Seq<char>, y: Seq<char>, z: Seq<char>)
    ensures
        !key_before(x, x),
        key_before(x, y) ==> !key_before(y, x),
        key_before(x, y) && key_before(y, z) ==> key_before(x, z),
        x != y ==> key_before(x, y) || key_before(y, x),
{
    broadcast use vstd::utf8::encode_utf8_decode_utf8;

    law_bytes_order(encode_utf8(x), encode_utf8(y), encode_utf8(z));
    if x != y {
        assert(vstd::utf8::decode_utf8(encode_utf8(x)) == x);
        assert(vstd::utf8::decode_utf8(encode_utf8(y)) == y);
    }
}

/// The keys a request takes are each of its keys once, in strictly
/// increasing key order, and nothing else.
pub proof fn law_ordered_keys(keys: Seq<Seq<char>>)
    ensures
        keys_ascending(ordered_keys(keys)),
        forall|k: Seq<char>| ordered_keys(keys).contains(k) <==> keys.contains(k),
    decreases keys.len(),
{
    if keys.len() > 0 {
        let rest = keys.drop_last();
        let k = keys.last();
        law_ordered_keys(rest);
        let s = ordered_keys(rest);
        let j = lemma_insert_key_position(s, k);
        lemma_insert_key_at(s, k, j);
        if !(j < s.len() && s[j] == k) {
            let r = s.insert(j, k);
            if j < s.len() {
                lemma_key_order(k, s[j], s[j]);
            }
            assert forall|a: int, b: int| 0 <= a < b < r.len() implies key_before(#[trigger] r[a], #[trigger] r[b]) by {
                if b < j {
                    assert(r[a] == s[a] && r[b] == s[b]);
                } else if b == j {
                    assert(r[a] == s[a] && r[b] == k);
                } else if a < j {
                    assert(r[a] == s[a] && r[b] == s[b - 1]);
                } else if a == j {
                    assert(r[a] == k && r[b] == s[b - 1]);
                    if b - 1 > j {
                        assert(key_before(s[j], s[b - 1]));
                        lemma_key_order(k, s[j], s[b - 1]);
                    }
                } else {
                    assert(r[a] == s[a - 1] && r[b] == s[b - 1]);
                }
            }
            assert forall|x: Seq<char>| r.contains(x) <==> keys.contains(x) by {
                if r.contains(x) {
                    let i = choose|i: int| 0 <= i < r.len() && r[i] == x;
                    if i < j {
                        assert(s[i] == x);
                        assert(s.contains(x));
                    } else if i > j {
                        assert(s[i - 1] == x);
                        assert(s.contains(x));
                    }
                    if s.contains(x) {
                        assert(rest.contains(x));
                        let m = choose|m: int| 0 <= m < rest.len() && rest[m] == x;
                        assert(keys[m] == x);
                    } else {
                        assert(keys[keys.len() - 1] == x);
                    }
                }
                if keys.contains(x) {
                    let i = choose|i: int| 0 <= i < keys.len() && keys[i] == x;
                    if i < keys.len() - 1 {
                        assert(rest[i] == x);
                        assert(rest.contains(x));
                        let m = choose|m: int| 0 <= m < s.len() && s[m] == x;
                        if m < j {
                            assert(r[m] == x);
                        } else {
                            assert(r[m + 1] == x);
                        }
                    } else {
                        assert(r[j] == x);
                    }
                }
            }
        } else {
            assert forall|x: Seq<char>| s.contains(x) <==> keys.contains(x) by {
                if s.contains(x) {
                    assert(rest.contains(x));
                    let m = choose|m: int| 0 <= m < rest.len() && rest[m] == x;
                    assert(keys[m] == x);
                }
                if keys.contains(x) {
                    let i = choose|i: int| 0 <= i < keys.len() && keys[i] == x;
                    if i < keys.len() - 1 {
                        assert(rest[i] == x);
                        assert(rest.contains(x));
                    } else {
                        assert(s[j] == x);
                    }
                    assert(s.contains(x));
                }
            }
        }
    }
}

proof fn lemma_drop_last_no_duplicates(keys: Seq<Seq<char>>)
    requires
        keys.no_duplicates(),
        keys.len() > 0,
    ensures
        keys.drop_last().no_duplicates(),
        !keys.drop_last().contains(keys.last()),
        forall|k: Seq<char>| #[trigger] keys.contains(k) <==> (keys.drop_last().contains(k) || k == keys.last()),
{
    let rest = keys.drop_last();
    assert forall|i: int, j: int| 0 <= i < rest.len() && 0 <= j < rest.len() && i != j implies rest[i] != rest[j] by {
        assert(rest[i] == keys[i] && rest[j] == keys[j]);
    }
    if rest.contains(keys.last()) {
        let i = choose|i: int| 0 <= i < rest.len() && rest[i] == keys.last();
        assert(keys[i] == keys[keys.len() - 1]);
    }
    assert forall|k: Seq<char>| #[trigger] keys.contains(k) <==> (rest.contains(k) || k == keys.last()) by {
        if keys.contains(k) {
            let i = choose|i: int| 0 <= i < keys.len() && keys[i] == k;
            if i < keys.len() - 1 {
                assert(rest[i] == k);
            }
        }
        if rest.contains(k) {
            let i = choose|i: int| 0 <= i < rest.len() && rest[i] == k;
            assert(keys[i] == k);
        }
        if k == keys.last() {
            assert(keys[keys.len() - 1] == k);
        }
    }
}

/// A key is in a non-empty sequence when it is in all but the last
/// element, or is the last.
proof fn lemma_contains_last(keys: Seq<Seq<char>>, x: Seq<char>)
    requires
        keys.len() > 0,
    ensures
        keys.contains(x) <==> (keys.drop_last().contains(x) || keys.last() == x),
{
    let rest = keys.drop_last();
    if keys.contains(x) {
        let i = choose|i: int| 0 <= i < keys.len() && keys[i] == x;
        if i < keys.len() - 1 {
            assert(rest[i] == x);
        }
    }
    if rest.contains(x) {
        let i = choose|i: int| 0 <= i < rest.len() && rest[i] == x;
        assert(keys[i] == x);
    }
    if keys.last() == x {
        assert(keys[keys.len() - 1] == x);
    }
}

/// What taking distinct keys does to each key's holders and line.
proof fn lemma_locked_counts(m: Map<Seq<char>, LockState>, keys: Seq<Seq<char>>, k: Seq<char>)
    requires
        keys.no_duplicates(),
    ensures
        holders(locked_after(m, keys), k) == if keys.contains(k) {
            bump(holders(m, k))
        } else {
            holders(m, k)
        },
        queue(locked_after(m, keys), k) == queue(m, k),
    decreases keys.len(),
{
    if keys.len() > 0 {
        lemma_drop_last_no_duplicates(keys);
        lemma_locked_counts(m, keys.drop_last(), k);
        lemma_locked_counts(m, keys.drop_last(), keys.last());
    }
}

/// What taking keys does to each entry, whatever the keys.
proof fn lemma_locked_shape(m: Map<Seq<char>, LockState>, keys: Seq<Seq<char>>, x: Seq<char>)
    ensures
        locked_after(m, keys).contains_key(x) == (m.contains_key(x) || keys.contains(x)),
        queue(locked_after(m, keys), x) == queue(m, x),
        keys.contains(x) ==> holders(locked_after(m, keys), x) > 0,
        !keys.contains(x) && m.contains_key(x) ==> locked_after(m, keys)[x] == m[x],
    decreases keys.len(),
{
    if keys.len() > 0 {
        lemma_contains_last(keys, x);
        lemma_locked_shape(m, keys.drop_last(), x);
    }
}

/// What giving back distinct keys does to each key's holders and line.
proof fn lemma_unlocked_counts(m: Map<Seq<char>, LockState>, keys: Seq<Seq<char>>, k: Seq<char>)
    requires
        keys.no_duplicates(),
    ensures
        holders(unlocked_after(m, keys), k) == if keys.contains(k) && holders(m, k) > 0 {
            (holders(m, k) - 1) as nat
        } else {
            holders(m, k)
        },
        queue(unlocked_after(m, keys), k) == queue(m, k),
    decreases keys.len(),
{
    if keys.len() > 0 {
        lemma_drop_last_no_duplicates(keys);
        lemma_unlocked_counts(m, keys.drop_last(), k);
        lemma_unlocked_counts(m, keys.drop_last(), keys.last());
    }
}

/// What giving back keys does to each entry, whatever the keys.
proof fn lemma_unlocked_shape(m: Map<Seq<char>, LockState>, keys: Seq<Seq<char>>, x: Seq<char>)
    ensures
        unlocked_after(m, keys).contains_key(x) ==> m.contains_key(x) && unlocked_after(m, keys)[x].1 == m[x].1,
        unlocked_after(m, keys).contains_key(x) && keys.contains(x) ==> (unlocked_after(m, keys)[x].0 > 0
            || unlocked_after(m, keys)[x].1.len() > 0),
        !keys.contains(x) ==> unlocked_after(m, keys).contains_key(x) == m.contains_key(x),
        !keys.contains(x) && m.contains_key(x) ==> unlocked_after(m, keys)[x] == m[x],
    decreases keys.len(),
{
    if keys.len() > 0 {
        lemma_contains_last(keys, x);
        lemma_unlocked_shape(m, keys.drop_last(), x);
    }
}

/// Once a request has taken its keys, every one of them has a holder, so
/// no other request that needs any of them can take its keys until they
/// are given back.
pub proof fn law_lock_excludes(m: Map<Seq<char>, LockState>, keys: Seq<Seq<char>>, other: Seq<Seq<char>>, k: Seq<char>)
    requires
        keys.no_duplicates(),
        keys.contains(k),
        other.contains(k),
    ensures
        holders(locked_after(m, keys), k) > 0,
        !all_free(locked_after(m, keys), other),
{
    lemma_locked_counts(m, keys, k);
    let i = choose|i: int| 0 <= i < other.len() && other[i] == k;
    assert(holders(locked_after(m, keys), other[i]) > 0);
}

/// Taking free keys and giving them back leaves every key with the holders
/// and the line it had.
pub proof fn law_unlock_undoes_lock(m: Map<Seq<char>, LockState>, keys: Seq<Seq<char>>, k: Seq<char>)
    requires
        keys.no_duplicates(),
        all_free(m, keys),
    ensures
        holders(unlocked_after(locked_after(m, keys), keys), k) == holders(m, k),
        queue(unlocked_after(locked_after(m, keys), keys), k) == queue(m, k),
{
    lemma_locked_counts(m, keys, k);
    lemma_unlocked_counts(locked_after(m, keys), keys, k);
    if keys.contains(k) {
        let i = choose|i: int| 0 <= i < keys.len() && keys[i] == k;
        assert(holders(m, keys[i]) == 0);
    }
}

/// Facts of a line without a ticket: it lacks the ticket, keeps only what
/// the line held, keeps the order, and is the line itself when the ticket
/// is not in it.
proof fn lemma_without(q: Seq<u64>, t: u64)
    ensures
        without(q, t).len() <= q.len(),
        forall|i: int| 0 <= i < without(q, t).len() ==> #[trigger] without(q, t)[i] != t && q.contains(without(q, t)[i]),
        (forall|i: int| 0 <= i < q.len() ==> q[i] != t) ==> without(q, t) == q,
        ascending(q) ==> ascending(without(q, t)),
    decreases q.len(),
{
    if q.len() > 0 {
        let p = q.drop_last();
        lemma_without(p, t);
        let r = without(p, t);
        assert forall|i: int| 0 <= i < r.len() implies q.contains(#[trigger] r[i]) by {
            let j = choose|j: int| 0 <= j < p.len() && p[j] == r[i];
            assert(q[j] == r[i]);
        }
        if q.last() != t {
            let s = r.push(q.last());
            assert forall|i: int| 0 <= i < s.len() implies #[trigger] s[i] != t && q.contains(s[i]) by {
                if i == r.len() {
                    assert(q[q.len() - 1] == s[i]);
                }
            }
            if ascending(q) {
                assert(ascending(p));
                assert forall|i: int, j: int| 0 <= i < j < s.len() implies s[i] < s[j] by {
                    if j == r.len() {
                        let a = choose|a: int| 0 <= a < p.len() && p[a] == r[i];
                        assert(q[a] < q[q.len() - 1]);
                    }
                }
            }
            if forall|i: int| 0 <= i < q.len() ==> q[i] != t {
                assert forall|i: int| 0 <= i < p.len() implies p[i] != t by {
                    assert(q[i] != t);
                }
                assert(s =~= q);
            }
        } else {
            assert(q[q.len() - 1] == t);
            if ascending(q) {
                assert(ascending(p));
            }
        }
    }
}

/// Leaving a line twice is leaving it once, and joining then leaving it
/// gives back the line.
proof fn lemma_without_twice(q: Seq<u64>, t: u64)
    ensures
        without(without(q, t), t) == without(q, t),
        without(q.push(t), t) == without(q, t),
{
    lemma_without(q, t);
    lemma_without(without(q, t), t);
    assert(q.push(t).drop_last() =~= q);
}

/// What leaving the lines of `keys` does to each entry.
proof fn lemma_left_entries(m: Map<Seq<char>, LockState>, keys: Seq<Seq<char>>, t: u64, x: Seq<char>)
    ensures
        left_after(m, keys, t).contains_key(x) == (m.contains_key(x) && !(keys.contains(x) && m[x].0 == 0
            && without(m[x].1, t).len() == 0)),
        left_after(m, keys, t).contains_key(x) ==> left_after(m, keys, t)[x] == if keys.contains(x) {
            (m[x].0, without(m[x].1, t))
        } else {
            m[x]
        },
    decreases keys.len(),
{
    if keys.len() > 0 {
        lemma_contains_last(keys, x);
        lemma_left_entries(m, keys.drop_last(), t, x);
        if m.contains_key(x) {
            lemma_without_twice(m[x].1, t);
        }
    }
}

/// What joining the lines of `keys` with a ticket above every ticket in
/// the table does to each entry.
proof fn lemma_queued_entries(m: Map<Seq<char>, LockState>, keys: Seq<Seq<char>>, t: u64, x: Seq<char>)
    requires
        table_ok(m, t),
    ensures
        queued_after(m, keys, t).contains_key(x) == (m.contains_key(x) || keys.contains(x)),
        holders(queued_after(m, keys, t), x) == holders(m, x),
        queue(queued_after(m, keys, t), x) == if keys.contains(x) {
            queue(m, x).push(t)
        } else {
            queue(m, x)
        },
        !keys.contains(x) && m.contains_key(x) ==> queued_after(m, keys, t)[x] == m[x],
    decreases keys.len(),
{
    if keys.len() > 0 {
        lemma_contains_last(keys, x);
        lemma_queued_entries(m, keys.drop_last(), t, x);
        if m.contains_key(x) && m[x].1.len() > 0 {
            assert(m[x].1[m[x].1.len() - 1] < t);
        }
    }
}

/// Taking keys keeps the table well formed.
proof fn lemma_locked_ok(m: Map<Seq<char>, LockState>, keys: Seq<Seq<char>>, next: u64)
    requires
        table_ok(m, next),
    ensures
        table_ok(locked_after(m, keys), next),
{
    let a = locked_after(m, keys);
    assert forall|k: Seq<char>| #[trigger] a.contains_key(k) implies {
        &&& (a[k].0 > 0 || a[k].1.len() > 0)
        &&& ascending(a[k].1)
        &&& forall|i: int| 0 <= i < a[k].1.len() ==> a[k].1[i] < next
    } by {
        lemma_locked_shape(m, keys, k);
        assert(a[k].1 == queue(a, k));
    }
}

/// Giving back keys keeps the table well formed.
proof fn lemma_unlocked_ok(m: Map<Seq<char>, LockState>, keys: Seq<Seq<char>>, next: u64)
    requires
        table_ok(m, next),
    ensures
        table_ok(unlocked_after(m, keys), next),
{
    let a = unlocked_after(m, keys);
    assert forall|k: Seq<char>| #[trigger] a.contains_key(k) implies {
        &&& (a[k].0 > 0 || a[k].1.len() > 0)
        &&& ascending(a[k].1)
        &&& forall|i: int| 0 <= i < a[k].1.len() ==> a[k].1[i] < next
    } by {
        lemma_unlocked_shape(m, keys, k);
    }
}

/// Leaving lines keeps the table well formed.
proof fn lemma_left_ok(m: Map<Seq<char>, LockState>, keys: Seq<Seq<char>>, t: u64, next: u64)
    requires
        table_ok(m, next),
    ensures
        table_ok(left_after(m, keys, t), next),
{
    let a = left_after(m, keys, t);
    assert forall|k: Seq<char>| #[trigger] a.contains_key(k) implies {
        &&& (a[k].0 > 0 || a[k].1.len() > 0)
        &&& ascending(a[k].1)
        &&& forall|i: int| 0 <= i < a[k].1.len() ==> a[k].1[i] < next
    } by {
        lemma_left_entries(m, keys, t, k);
        lemma_without(m[k].1, t);
        if keys.contains(k) {
            let w = without(m[k].1, t);
            assert forall|i: int| 0 <= i < w.len() implies w[i] < next by {
                let j = choose|j: int| 0 <= j < m[k].1.len() && m[k].1[j] == w[i];
            }
        }
    }
}

/// Joining lines with the next ticket keeps the table well formed for the
/// counter past it.
proof fn lemma_queued_ok(m: Map<Seq<char>, LockState>, keys: Seq<Seq<char>>, t: u64)
    requires
        table_ok(m, t),
        t < u64::MAX,
    ensures
        table_ok(queued_after(m, keys, t), (t + 1) as u64),
{
    let a = queued_after(m, keys, t);
    assert forall|k: Seq<char>| #[trigger] a.contains_key(k) implies {
        &&& (a[k].0 > 0 || a[k].1.len() > 0)
        &&& ascending(a[k].1)
        &&& forall|i: int| 0 <= i < a[k].1.len() ==> a[k].1[i] < (t + 1) as u64
    } by {
        lemma_queued_entries(m, keys, t, k);
        assert(a[k].1 == queue(a, k));
        if keys.contains(k) {
            let q = queue(m, k);
            assert forall|i: int, j: int| 0 <= i < j < q.push(t).len() implies q.push(t)[i] < q.push(t)[j] by {
                if j == q.len() {
                    assert(q[i] < t);
                }
            }
        }
    }
}

/// A caller that joins the lines of some keys and then leaves them leaves
/// the table as it found it.
pub proof fn law_wait_then_stop(m: Map<Seq<char>, LockState>, keys: Seq<Seq<char>>, t: u64)
    requires
        table_ok(m, t),
    ensures
        left_after(queued_after(m, keys, t), keys, t) == m,
{
    let w = queued_after(m, keys, t);
    let d = left_after(w, keys, t);
    assert forall|x: Seq<char>| #[trigger] d.contains_key(x) == m.contains_key(x) && (m.contains_key(x) ==> d[x]
        == m[x]) by {
        lemma_queued_entries(m, keys, t, x);
        lemma_left_entries(w, keys, t, x);
        if keys.contains(x) {
            let q = queue(m, x);
            lemma_without_twice(q, t);
            assert forall|i: int| 0 <= i < q.len() implies q[i] != t by {
                assert(q[i] < t);
            }
            lemma_without(q, t);
            assert(w[x].1 == q.push(t));
        }
    }
    assert(d =~= m);
}

/// First come, first served: when it is the turn of a waiter, everyone
/// still waiting for any of its keys came after it; when it is the turn of
/// a newcomer, nobody waits for any of its keys.
pub proof fn law_first_come_first_served(
    m: Map<Seq<char>, LockState>,
    keys: Seq<Seq<char>>,
    ticket: Option<u64>,
    next: u64,
)
    requires
        table_ok(m, next),
        may_take(m, keys, ticket),
    ensures
        forall|i: int, j: int|
            0 <= i < keys.len() && 0 <= j < waiters(m, keys[i]) ==> (ticket matches Some(t) && t <= #[trigger] queue(
                m,
                keys[i],
            )[j]),
        ticket is None ==> forall|i: int| 0 <= i < keys.len() ==> waiters(m, #[trigger] keys[i]) == 0,
{
    assert forall|i: int, j: int| 0 <= i < keys.len() && 0 <= j < waiters(m, keys[i]) implies (ticket matches Some(t)
        && t <= #[trigger] queue(m, keys[i])[j]) by {
        let k = keys[i];
        assert(holders(m, keys[i]) == 0);
        assert(m.contains_key(k));
        if j > 0 {
            assert(m[k].1[0] < m[k].1[j]);
        }
    }
    assert forall|i: int| 0 <= i < keys.len() && ticket is None implies waiters(m, #[trigger] keys[i]) == 0 by {
        assert(holders(m, keys[i]) == 0);
    }
}

/// No waiter is passed over for good: the caller that has waited longest
/// of all gets its turn as soon as its keys are free.
pub proof fn law_longest_waiter_goes_next(m: Map<Seq<char>, LockState>, keys: Seq<Seq<char>>, t: u64, next: u64)
    requires
        table_ok(m, next),
        all_free(m, keys),
        forall|i: int| 0 <= i < keys.len() ==> #[trigger] queue(m, keys[i]).contains(t),
        forall|k: Seq<char>, j: int| m.contains_key(k) && 0 <= j < m[k].1.len() ==> t <= #[trigger] m[k].1[j],
    ensures
        may_take(m, keys, Some(t)),
{
    assert forall|i: int| 0 <= i < keys.len() implies {
        &&& holders(m, #[trigger] keys[i]) == 0
        &&& (queue(m, keys[i]).len() == 0 || (Some(t) matches Some(x) && queue(m, keys[i])[0] == x))
    } by {
        let k = keys[i];
        assert(queue(m, k).contains(t));
        let p = choose|p: int| 0 <= p < queue(m, k).len() && queue(m, k)[p] == t;
        assert(m.contains_key(k));
        assert(t <= m[k].1[0]);
        if p > 0 {
            assert(m[k].1[0] < m[k].1[p]);
        }
    }
}

// ---------------------------------------------------------------------------
// Steps on the table
// ---------------------------------------------------------------------------

/// The position of the entry for `k` (the length when there is none).
fn find_key(v: &Vec<LockEntry>, k: &str) -> (r: usize)
    requires
        distinct_keys(entry_views(v@)),
    ensures
        r <= v@.len(),
        (r < v@.len()) == map_of_pairs(entry_views(v@)).contains_key(k@),
        r < v@.len() ==> entry_views(v@)[r as int].0 == k@,
{
    let ghost s = entry_views(v@);
    let mut i: usize = 0;
    while i < v.len()
        invariant
            i <= v@.len(),
            s == entry_views(v@),
            s.len() == v@.len(),
            forall|j: int| 0 <= j < i ==> #[trigger] s[j].0 != k@,
        decreases v.len() - i,
    {
        if str_eq(v[i].key.as_str(), k) {
            proof {
                assert(s[i as int].0 == k@);
                assert(has_key(s, k@));
            }
            return i;
        }
        i = i + 1;
    }
    proof {
        if has_key(s, k@) {
            let j = choose|j: int| 0 <= j < s.len() && #[trigger] s[j].0 == k@;
            assert(s[j].0 != k@);
        }
    }
    v.len()
}

/// A copy of a line of tickets.
fn copy_tickets(v: &Vec<u64>) -> (r: Vec<u64>)
    ensures
        r@ == v@,
{
    let mut r: Vec<u64> = Vec::new();
    let mut i: usize = 0;
    while i < v.len()
        invariant
            i <= v@.len(),
            r@ == v@.take(i as int),
        decreases v.len() - i,
    {
        r.push(v[i]);
        i = i + 1;
        proof {
            assert(r@ =~= v@.take(i as int));
        }
    }
    proof {
        assert(v@.take(v@.len() as int) =~= v@);
    }
    r
}

/// The line `v` without ticket `t` (see `without`).
fn without_ticket(v: &Vec<u64>, t: u64) -> (r: Vec<u64>)
    ensures
        r@ == without(v@, t),
{
    let mut r: Vec<u64> = Vec::new();
    let mut i: usize = 0;
    proof {
        assert(v@.take(0) =~= Seq::<u64>::empty());
    }
    while i < v.len()
        invariant
            i <= v@.len(),
            r@ == without(v@.take(i as int), t),
        decreases v.len() - i,
    {
        proof {
            assert(v@.take(i + 1).drop_last() =~= v@.take(i as int));
            assert(v@.take(i + 1).last() == v@[i as int]);
        }
        if v[i] != t {
            r.push(v[i]);
        }
        i = i + 1;
    }
    proof {
        assert(v@.take(v@.len() as int) =~= v@);
    }
    r
}

impl View for KeyLockManager {
    type V = Map<Seq<char>, LockState>;

    closed spec fn view(&self) -> Map<Seq<char>, LockState> {
        map_of_pairs(entry_views(self.locks@))
    }
}

impl KeyLockGuard {
    /// The keys held, each once, in key order.
    pub closed spec fn key_seq(&self) -> Seq<Seq<char>> {
        key_views(self.keys@)
    }

    /// The keys held, each once, in key order.
    pub fn keys(&self) -> (r: &Vec<String>)
        ensures
            key_views(r@) == self.key_seq(),
    {
        &self.keys
    }
}

impl Default for KeyLockManager {
    /// An empty table whose callers wait at most 30 seconds for keys.
    fn default() -> (r: Self)
        ensures
            r.wf(),
            r@ == Map::<Seq<char>, LockState>::empty(),
            r.timeout_spec() == crate::cluster::config::spec_duration_from_secs(30),
            crate::cluster::config::spec_duration_as_millis(r.timeout_spec()) == 30_000,
    {
        KeyLockManager::new(crate::cluster::config::duration_from_secs(30))
    }
}

impl KeyLockManager {
    /// Every key has one entry, and the table is well formed for the
    /// ticket counter.
    pub closed spec fn wf(&self) -> bool {
        &&& distinct_keys(entry_views(self.locks@))
        &&& table_ok(self@, self.next_ticket)
    }

    /// Every key has one entry.
    closed spec fn keys_ok(&self) -> bool {
        distinct_keys(entry_views(self.locks@))
    }

    /// How long a caller that waits for keys waits at most.
    pub closed spec fn timeout_spec(&self) -> Duration {
        self.timeout
    }

    /// The ticket the next caller to join a line gets.
    pub closed spec fn ticket_counter(&self) -> u64 {
        self.next_ticket
    }

    /// An empty table whose callers wait at most `timeout` for keys.
    pub fn new(timeout: Duration) -> (r: Self)
        ensures
            r.wf(),
            r@ == Map::<Seq<char>, LockState>::empty(),
            r.timeout_spec() == timeout,
            r.ticket_counter() == 0,
    {
        let r = KeyLockManager { locks: Vec::new(), next_ticket: 0, timeout };
        proof {
            assert(entry_views(r.locks@) =~= Seq::<(Seq<char>, LockState)>::empty());
            assert(r@ =~= Map::<Seq<char>, LockState>::empty());
        }
        r
    }

    /// How long a caller that waits for keys waits at most.
    pub fn timeout(&self) -> (r: Duration)
        ensures
            r == self.timeout_spec(),
    {
        duration_copy(&self.timeout)
    }

    /// Sets the entry for `k` to `h` holders and the line `q`.
    fn put_entry(&mut self, k: &str, h: usize, q: Vec<u64>)
        requires
            old(self).keys_ok(),
        ensures
            final(self).keys_ok(),
            final(self)@ == old(self)@.insert(k@, (h as nat, q@)),
            final(self).timeout == old(self).timeout,
            final(self).next_ticket == old(self).next_ticket,
    {
        let i = find_key(&self.locks, k);
        let ghost s = entry_views(self.locks@);
        let ghost qv = q@;
        let e = LockEntry { key: string_of(k), holders: h, queue: q };
        if i < self.locks.len() {
            proof {
                lemma_pairs_update(s, i as int, (k@, (h as nat, qv)));
            }
            self.locks.set(i, e);
            proof {
                assert(entry_views(self.locks@) =~= s.update(i as int, (k@, (h as nat, qv))));
            }
        } else {
            proof {
                lemma_pairs_push(s, (k@, (h as nat, qv)));
            }
            self.locks.push(e);
            proof {
                assert(entry_views(self.locks@) =~= s.push((k@, (h as nat, qv))));
            }
        }
    }

    /// Removes the entry for `k`.
    fn drop_entry(&mut self, at: usize, k: &str)
        requires
            old(self).keys_ok(),
            at < old(self).locks@.len(),
            entry_views(old(self).locks@)[at as int].0 == k@,
        ensures
            final(self).keys_ok(),
            final(self)@ == old(self)@.remove(k@),
            final(self).timeout == old(self).timeout,
            final(self).next_ticket == old(self).next_ticket,
    {
        let ghost s = entry_views(self.locks@);
        proof {
            lemma_pairs_remove(s, at as int);
        }
        self.locks.remove(at);
        proof {
            assert(entry_views(self.locks@) =~= s.remove(at as int));
        }
    }

    /// Where the entry for `k` is, its holders and its line.
    fn entry_of(&self, k: &str) -> (r: (usize, usize, Vec<u64>))
        requires
            self.keys_ok(),
        ensures
            r.0 <= self.locks@.len(),
            (r.0 < self.locks@.len()) == self@.contains_key(k@),
            r.0 < self.locks@.len() ==> entry_views(self.locks@)[r.0 as int].0 == k@,
            r.1 == holders(self@, k@),
            r.2@ == queue(self@, k@),
    {
        let i = find_key(&self.locks, k);
        if i < self.locks.len() {
            proof {
                lemma_key_index(entry_views(self.locks@), i as int);
            }
            (i, self.locks[i].holders, copy_tickets(&self.locks[i].queue))
        } else {
            (i, 0, Vec::new())
        }
    }

    /// Whether no key of `keys` has a holder.
    pub fn keys_free(&self, keys: &[String]) -> (r: bool)
        requires
            self.wf(),
        ensures
            r == all_free(self@, key_views(keys@)),
    {
        let ghost ks = key_views(keys@);
        let mut i: usize = 0;
        while i < keys.len()
            invariant
                self.wf(),
                i <= keys@.len(),
                ks == key_views(keys@),
                forall|j: int| 0 <= j < i ==> holders(self@, #[trigger] ks[j]) == 0,
            decreases keys.len() - i,
        {
            let (_, h, _) = self.entry_of(keys[i].as_str());
            if h != 0 {
                proof {
                    assert(ks[i as int] == keys@[i as int]@);
                }
                return false;
            }
            i = i + 1;
        }
        true
    }

    /// Whether it is the turn of the caller holding `ticket` (a newcomer,
    /// for `None`) to take `keys` (see `may_take`).
    pub fn is_turn(&self, keys: &[String], ticket: Option<u64>) -> (r: bool)
        requires
            self.wf(),
        ensures
            r == may_take(self@, key_views(keys@), ticket),
    {
        let ghost ks = key_views(keys@);
        let mut i: usize = 0;
        while i < keys.len()
            invariant
                self.wf(),
                i <= keys@.len(),
                ks == key_views(keys@),
                forall|j: int|
                    0 <= j < i ==> {
                        &&& holders(self@, #[trigger] ks[j]) == 0
                        &&& (queue(self@, ks[j]).len() == 0 || (ticket matches Some(t) && queue(self@, ks[j])[0] == t))
                    },
            decreases keys.len() - i,
        {
            let (_, h, q) = self.entry_of(keys[i].as_str());
            proof {
                assert(ks[i as int] == keys@[i as int]@);
            }
            if h != 0 {
                return false;
            }
            if q.len() > 0 {
                match ticket {
                    Some(t) => {
                        if q[0] != t {
                            return false;
                        }
                    },
                    None => {
                        return false;
                    },
                }
            }
            i = i + 1;
        }
        true
    }

    /// Each key of `keys` gains a holder.
    fn hold_keys(&mut self, keys: &[String])
        requires
            old(self).wf(),
        ensures
            final(self).wf(),
            final(self).timeout == old(self).timeout,
            final(self).next_ticket == old(self).next_ticket,
            final(self)@ == locked_after(old(self)@, key_views(keys@)),
    {
        let ghost ks = key_views(keys@);
        let ghost m0 = self@;
        let mut i: usize = 0;
        proof {
            assert(ks.take(0) =~= Seq::<Seq<char>>::empty());
        }
        while i < keys.len()
            invariant
                self.keys_ok(),
                self.timeout == old(self).timeout,
                self.next_ticket == old(self).next_ticket,
                i <= keys@.len(),
                ks == key_views(keys@),
                self@ == locked_after(m0, ks.take(i as int)),
            decreases keys.len() - i,
        {
            proof {
                lemma_keys_take_step(ks, i as int);
            }
            let (_, h, q) = self.entry_of(keys[i].as_str());
            let h2 = if h < usize::MAX {
                h + 1
            } else {
                h
            };
            self.put_entry(keys[i].as_str(), h2, q);
            i = i + 1;
        }
        proof {
            assert(ks.take(keys@.len() as int) =~= ks);
            lemma_locked_ok(m0, ks, self.next_ticket);
        }
    }

    /// Takes every key of `keys` if it is the turn of the caller holding
    /// `ticket` (a newcomer, for `None`): the caller leaves the lines it
    /// waited in and each key gains a holder. Else changes nothing. Says
    /// which.
    pub fn try_acquire(&mut self, keys: &[String], ticket: Option<u64>) -> (r: bool)
        requires
            old(self).wf(),
        ensures
            final(self).wf(),
            final(self).timeout_spec() == old(self).timeout_spec(),
            final(self).ticket_counter() == old(self).ticket_counter(),
            r == may_take(old(self)@, key_views(keys@), ticket),
            r ==> final(self)@ == taken_after(old(self)@, key_views(keys@), ticket),
            !r ==> final(self)@ == old(self)@,
    {
        if !self.is_turn(keys, ticket) {
            return false;
        }
        match ticket {
            Some(t) => {
                self.remove_waiters(keys, t);
            },
            None => {},
        }
        self.hold_keys(keys);
        true
    }

    /// The caller joins the end of the line of each key of `keys` and gets
    /// its ticket: the counter, which moves on by one. When the counter is
    /// spent nothing changes and no ticket is given.
    pub fn add_waiters(&mut self, keys: &[String]) -> (r: Option<u64>)
        requires
            old(self).wf(),
        ensures
            final(self).wf(),
            final(self).timeout_spec() == old(self).timeout_spec(),
            old(self).ticket_counter() == u64::MAX ==> r is None && final(self)@ == old(self)@
                && final(self).ticket_counter() == old(self).ticket_counter(),
            old(self).ticket_counter() < u64::MAX ==> {
                &&& r == Some(old(self).ticket_counter())
                &&& final(self)@ == queued_after(old(self)@, key_views(keys@), old(self).ticket_counter())
                &&& final(self).ticket_counter() == old(self).ticket_counter() + 1
            },
    {
        if self.next_ticket == u64::MAX {
            return None;
        }
        let t = self.next_ticket;
        let ghost ks = key_views(keys@);
        let ghost m0 = self@;
        self.next_ticket = t + 1;
        let mut i: usize = 0;
        proof {
            assert(ks.take(0) =~= Seq::<Seq<char>>::empty());
        }
        while i < keys.len()
            invariant
                self.keys_ok(),
                self.timeout == old(self).timeout,
                self.next_ticket == t + 1,
                t == old(self).next_ticket,
                table_ok(m0, t),
                i <= keys@.len(),
                ks == key_views(keys@),
                self@ == queued_after(m0, ks.take(i as int), t),
            decreases keys.len() - i,
        {
            proof {
                lemma_keys_take_step(ks, i as int);
            }
            let (_, h, q) = self.entry_of(keys[i].as_str());
            let queued = q.len() > 0 && q[q.len() - 1] == t;
            if !queued {
                let mut q2 = q;
                q2.push(t);
                self.put_entry(keys[i].as_str(), h, q2);
            }
            i = i + 1;
        }
        proof {
            assert(ks.take(keys@.len() as int) =~= ks);
            lemma_queued_ok(m0, ks, t);
        }
        Some(t)
    }

    /// The caller with ticket `t` leaves the line of each key of `keys`; an
    /// entry left with neither holders nor waiters goes.
    pub fn remove_waiters(&mut self, keys: &[String], t: u64)
        requires
            old(self).wf(),
        ensures
            final(self).wf(),
            final(self).timeout_spec() == old(self).timeout_spec(),
            final(self).ticket_counter() == old(self).ticket_counter(),
            final(self)@ == left_after(old(self)@, key_views(keys@), t),
    {
        let ghost ks = key_views(keys@);
        let ghost m0 = self@;
        let mut i: usize = 0;
        proof {
            assert(ks.take(0) =~= Seq::<Seq<char>>::empty());
        }
        while i < keys.len()
            invariant
                self.keys_ok(),
                self.timeout == old(self).timeout,
                self.next_ticket == old(self).next_ticket,
                i <= keys@.len(),
                ks == key_views(keys@),
                self@ == left_after(m0, ks.take(i as int), t),
            decreases keys.len() - i,
        {
            proof {
                lemma_keys_take_step(ks, i as int);
            }
            let (at, h, q) = self.entry_of(keys[i].as_str());
            if at < self.locks.len() {
                let q2 = without_ticket(&q, t);
                if h == 0 && q2.len() == 0 {
                    self.drop_entry(at, keys[i].as_str());
                } else {
                    self.put_entry(keys[i].as_str(), h, q2);
                }
            }
            i = i + 1;
        }
        proof {
            assert(ks.take(keys@.len() as int) =~= ks);
            lemma_left_ok(m0, ks, t, self.next_ticket);
        }
    }

    /// Each key of `keys` that has an entry loses a holder; an entry left
    /// with neither holders nor waiters goes.
    pub fn unlock_keys(&mut self, keys: &[String])
        requires
            old(self).wf(),
        ensures
            final(self).wf(),
            final(self).timeout_spec() == old(self).timeout_spec(),
            final(self).ticket_counter() == old(self).ticket_counter(),
            final(self)@ == unlocked_after(old(self)@, key_views(keys@)),
    {
        let ghost ks = key_views(keys@);
        let ghost m0 = self@;
        let mut i: usize = 0;
        proof {
            assert(ks.take(0) =~= Seq::<Seq<char>>::empty());
        }
        while i < keys.len()
            invariant
                self.keys_ok(),
                self.timeout == old(self).timeout,
                self.next_ticket == old(self).next_ticket,
                i <= keys@.len(),
                ks == key_views(keys@),
                self@ == unlocked_after(m0, ks.take(i as int)),
            decreases keys.len() - i,
        {
            proof {
                lemma_keys_take_step(ks, i as int);
            }
            let (at, h, q) = self.entry_of(keys[i].as_str());
            if at < self.locks.len() {
                let h2 = if h > 0 {
                    h - 1
                } else {
                    0
                };
                if h2 == 0 && q.len() == 0 {
                    self.drop_entry(at, keys[i].as_str());
                } else {
                    self.put_entry(keys[i].as_str(), h2, q);
                }
            }
            i = i + 1;
        }
        proof {
            assert(ks.take(keys@.len() as int) =~= ks);
            lemma_unlocked_ok(m0, ks, self.next_ticket);
        }
    }

    /// The keys of `keys`, each once, in the order they are taken in: the
    /// one order every request follows, so that two requests never wait
    /// for each other.
    pub fn lock_order(keys: &[String]) -> (r: Vec<String>)
        ensures
            key_views(r@) == ordered_keys(key_views(keys@)),
    {
        let ghost ks = key_views(keys@);
        let mut out: Vec<String> = Vec::new();
        let mut i: usize = 0;
        proof {
            assert(ks.take(0) =~= Seq::<Seq<char>>::empty());
            assert(key_views(out@) =~= Seq::<Seq<char>>::empty());
        }
        while i < keys.len()
            invariant
                i <= keys@.len(),
                ks == key_views(keys@),
                key_views(out@) == ordered_keys(ks.take(i as int)),
            decreases keys.len() - i,
        {
            proof {
                lemma_keys_take_step(ks, i as int);
            }
            let kb = text_bytes(keys[i].as_str());
            let ghost sv = key_views(out@);
            let mut j: usize = 0;
            while j < out.len() && bytes_before(&text_bytes(out[j].as_str()), &kb)
                invariant
                    j <= out@.len(),
                    sv == key_views(out@),
                    kb@ == encode_utf8(keys@[i as int]@),
                    ks[i as int] == keys@[i as int]@,
                    forall|a: int| 0 <= a < j ==> key_before(#[trigger] sv[a], ks[i as int]),
                decreases out.len() - j,
            {
                proof {
                    assert(sv[j as int] == out@[j as int]@);
                }
                j = j + 1;
            }
            proof {
                lemma_insert_key_at(sv, ks[i as int], j as int);
            }
            let present = j < out.len() && str_eq(out[j].as_str(), keys[i].as_str());
            if !present {
                out.insert(j, string_of(keys[i].as_str()));
                proof {
                    assert(key_views(out@) =~= sv.insert(j as int, ks[i as int]));
                }
            }
            i = i + 1;
        }
        proof {
            assert(ks.take(keys@.len() as int) =~= ks);
        }
        out
    }

    /// Takes the keys of a newcomer that holds the table to itself: all of
    /// them, each once in key order, when none has a holder and nobody
    /// waits for any of them; no keys at all for an empty request. While
    /// this caller holds the table nobody can free a key or leave a line,
    /// so a wait could only end in the timeout error, which comes back at
    /// once, the table unchanged.
    pub fn lock_keys(&mut self, keys: &[String]) -> (r: Result<KeyLockGuard, AikvError>)
        requires
            old(self).wf(),
        ensures
            final(self).wf(),
            final(self).timeout_spec() == old(self).timeout_spec(),
            final(self).ticket_counter() == old(self).ticket_counter(),
            ({
                let order = ordered_keys(key_views(keys@));
                if keys@.len() == 0 {
                    r matches Ok(g) && g.key_seq().len() == 0 && final(self)@ == old(self)@
                } else if may_take(old(self)@, order, None) {
                    r matches Ok(g) && g.key_seq() == order && final(self)@ == locked_after(old(self)@, order)
                } else {
                    &&& r matches Err(AikvError::Script(msg))
                    &&& msg@ == "Lock acquisition timeout after "@ + spec_duration_text(old(self).timeout_spec())
                    &&& final(self)@ == old(self)@
                }
            }),
    {
        if keys.len() == 0 {
            return Ok(KeyLockGuard { keys: Vec::new() });
        }
        let order = Self::lock_order(keys);
        if self.try_acquire(order.as_slice(), None) {
            Ok(KeyLockGuard { keys: order })
        } else {
            let mut msg = string_of("Lock acquisition timeout after ");
            let t = duration_text(&self.timeout);
            push_str(&mut msg, t.as_str());
            Err(AikvError::Script(msg))
        }
    }

    /// Gives back the keys a `lock_keys` took.
    pub fn release(&mut self, guard: KeyLockGuard)
        requires
            old(self).wf(),
        ensures
            final(self).wf(),
            final(self).timeout_spec() == old(self).timeout_spec(),
            final(self).ticket_counter() == old(self).ticket_counter(),
            final(self)@ == unlocked_after(old(self)@, guard.key_seq()),
    {
        self.unlock_keys(guard.keys.as_slice());
    }
}

// ---------------------------------------------------------------------------
// Durations
// ---------------------------------------------------------------------------

/// The text std's `Debug` gives a duration, such as `5s` or `1.5ms`.
pub uninterp spec fn spec_duration_text(d: Duration) -> Seq<char>;

/// `format!("{:?}", d)`: std's debug text of a duration, which depends on
/// the duration alone.
#[verifier::external_body]
fn duration_text(d: &Duration) -> (r: String)
    ensures
        r@ == spec_duration_text(*d),
{
    format!("{:?}", d)
}

/// A copy of a duration (`Duration` is `Copy`).
fn duration_copy(d: &Duration) -> (r: Duration)
    ensures
        r == *d,
{
    *d
}

} // verus!

verus! {

// ---------------------------------------------------------------------------
// The script cache
// ---------------------------------------------------------------------------

/// What SHA-1 (the `sha1` crate's `Sha1`) gives for some bytes: 20 bytes.
pub uninterp spec fn spec_sha1(data: Seq<u8>) -> Seq<u8>;

/// `Sha1::digest(data)`, the 20-byte SHA-1 digest of the bytes (the `sha1`
/// crate; its output size is 20 bytes).
#[verifier::external_body]
fn sha1_digest(data: &[u8]) -> (r: Vec<u8>)
    ensures
        r@ == spec_sha1(data@),
        r@.len() == 20,
{
    <sha1::Sha1 as sha1::Digest>::digest(data).to_vec()
}

/// Bytes in lower-case hexadecimal, two digits each.
pub open spec fn hex_bytes(b: Seq<u8>) -> Seq<char>
    decreases b.len(),
{
    if b.len() == 0 {
        Seq::empty()
    } else {
        hex_bytes(b.drop_last()) + crate::text::hex_fixed_spec(b.last() as nat, 2)
    }
}

/// The name a script is cached under: the lower-case hexadecimal SHA-1 of
/// its UTF-8 text.
pub open spec fn script_sha(script: Seq<char>) -> Seq<char> {
    hex_bytes(spec_sha1(encode_utf8(script)))
}

/// The cache entries as values: digest text and script text.
spec fn cache_views(v: Seq<(String, String)>) -> Seq<(Seq<char>, Seq<char>)> {
    v.map_values(|e: (String, String)| (e.0@, e.1@))
}

/// The script engine: the key-level locks, the script cache, and the
/// keyspace scripts run against.
pub struct ScriptCommands {
    storage: StorageEngine,
    script_cache: ScriptCache,
    key_lock_manager: KeyLockManager,
}

/// Scripts by the digest text they are cached under.
#[derive(Debug)]
pub struct ScriptCache {
    entries: Vec<(String, String)>,
}

/// What SCRIPT LOAD script answers and leaves in the cache `c`.
pub open spec fn load_step(c: Map<Seq<char>, Seq<char>>, a: Seq<Seq<u8>>) -> (Reply, Map<Seq<char>, Seq<char>>) {
    if a.len() != 1 {
        (Reply::Fail(Failure::Arity("SCRIPT LOAD"@)), c)
    } else {
        let script = key_of(a[0]);
        (Reply::Bulk(encode_utf8(script_sha(script))), c.insert(script_sha(script), script))
    }
}

/// What SCRIPT EXISTS sha1 [sha1 ...] answers: 1 for each digest in the
/// cache `c`, 0 for each that is not.
pub open spec fn exists_reply(c: Map<Seq<char>, Seq<char>>, a: Seq<Seq<u8>>) -> Reply {
    if a.len() == 0 {
        Reply::Fail(Failure::Arity("SCRIPT EXISTS"@))
    } else {
        Reply::Array(Seq::new(a.len(), |i: int| Reply::Int(if c.contains_key(key_of(a[i])) { 1 } else { 0 })))
    }
}

/// What SCRIPT subcommand [arg ...] answers, with the cache before and
/// after.
pub open spec fn script_step(
    before: Map<Seq<char>, Seq<char>>,
    after: Map<Seq<char>, Seq<char>>,
    a: Seq<Seq<u8>>,
    r: Result<RespValue, AikvError>,
) -> bool {
    if a.len() == 0 {
        models(r, Reply::Fail(Failure::Arity("SCRIPT"@))) && after == before
    } else {
        let sub = option_of(a[0]);
        let rest = a.subrange(1, a.len() as int);
        if sub == "LOAD"@ {
            models(r, load_step(before, rest).0) && after == load_step(before, rest).1
        } else if sub == "EXISTS"@ {
            models(r, exists_reply(before, rest)) && after == before
        } else if sub == "FLUSH"@ {
            models(r, ok_reply()) && after == Map::<Seq<char>, Seq<char>>::empty()
        } else if sub == "KILL"@ {
            models(r, Reply::Fail(Failure::Invalid("NOTBUSY No scripts in execution right now."@))) && after == before
        } else {
            models(r, Reply::Fail(Failure::Command("Unknown SCRIPT subcommand: "@ + sub))) && after == before
        }
    }
}

/// The hexadecimal text of `b` (see `hex_bytes`).
fn hex_text(b: &Vec<u8>) -> (r: String)
    ensures
        r@ == hex_bytes(b@),
{
    let mut s = String::new();
    let mut i: usize = 0;
    proof {
        assert(b@.take(0) =~= Seq::<u8>::empty());
    }
    while i < b.len()
        invariant
            i <= b@.len(),
            s@ == hex_bytes(b@.take(i as int)),
        decreases b.len() - i,
    {
        proof {
            assert(b@.take(i + 1).drop_last() =~= b@.take(i as int));
        }
        push_hex_fixed(&mut s, b[i] as u64, 2);
        i = i + 1;
    }
    proof {
        assert(b@.take(b@.len() as int) =~= b@);
    }
    s
}

/// A script to run, with its keys and arguments (as EVAL and EVALSHA give
/// them).
pub struct ScriptRequest {
    /// The script text (for EVALSHA, its digest until it is looked up).
    pub script: String,
    /// The keys the script declares.
    pub keys: Vec<String>,
    /// The other arguments.
    pub argv: Vec<String>,
}

impl ScriptRequest {
    /// The request as texts.
    pub open spec fn view_of(&self) -> (Seq<char>, Seq<Seq<char>>, Seq<Seq<char>>) {
        (self.script@, key_views(self.keys@), key_views(self.argv@))
    }
}

/// EVAL script numkeys [key ...] [arg ...] (or EVALSHA, `name`): the first
/// argument's text, the `numkeys` keys after the count and the arguments
/// after them.
pub open spec fn script_request(a: Seq<Seq<u8>>, name: Seq<char>) -> Result<
    (Seq<char>, Seq<Seq<char>>, Seq<Seq<char>>),
    Failure,
> {
    if a.len() < 2 {
        Err(Failure::Arity(name))
    } else {
        match usize_arg(a[1]) {
            None => Err(Failure::Invalid("numkeys must be a number"@)),
            Some(n) => if a.len() < 2 + n {
                Err(Failure::Invalid("Number of keys doesn't match numkeys parameter"@))
            } else {
                Ok(
                    (
                        key_of(a[0]),
                        a.subrange(2, (2 + n) as int).map_values(|b: Seq<u8>| key_of(b)),
                        a.subrange((2 + n) as int, a.len() as int).map_values(|b: Seq<u8>| key_of(b)),
                    ),
                )
            },
        }
    }
}

/// The texts of `args[from..to]`.
fn arg_texts(args: &[Vec<u8>], from: usize, to: usize) -> (r: Vec<String>)
    requires
        from <= to <= args@.len(),
    ensures
        key_views(r@) == arg_views(args@).subrange(from as int, to as int).map_values(|b: Seq<u8>| key_of(b)),
{
    let mut out: Vec<String> = Vec::new();
    let mut i: usize = from;
    while i < to
        invariant
            from <= i <= to <= args@.len(),
            out@.len() == i - from,
            forall|j: int| 0 <= j < out@.len() ==> #[trigger] out@[j]@ == key_of(args@[from + j]@),
        decreases to - i,
    {
        let ghost before = out@;
        out.push(arg_text(&args[i]));
        proof {
            assert forall|j: int| 0 <= j < out@.len() implies #[trigger] out@[j]@ == key_of(args@[from + j]@) by {
                if j < before.len() {
                    assert(out@[j] == before[j]);
                }
            }
        }
        i = i + 1;
    }
    proof {
        lemma_arg_views(args@);
        assert(key_views(out@) =~= arg_views(args@).subrange(from as int, to as int).map_values(|b: Seq<u8>| key_of(b)));
    }
    out
}

/// `script_request` for the arguments of command `name`.
fn parse_script_request(args: &[Vec<u8>], name: &str) -> (r: Result<ScriptRequest, AikvError>)
    ensures
        match script_request(arg_views(args@), name@) {
            Err(f) => r matches Err(e) && error_models(e, f),
            Ok(q) => r matches Ok(req) && req.view_of() == q,
        },
{
    proof {
        lemma_arg_views(args@);
    }
    if args.len() < 2 {
        return Err(arity_error(name));
    }
    let n = match arg_usize(&args[1]) {
        Some(n) => n,
        None => {
            return Err(invalid_error("numkeys must be a number"));
        },
    };
    if n > args.len() - 2 {
        return Err(invalid_error("Number of keys doesn't match numkeys parameter"));
    }
    let keys = arg_texts(args, 2, 2 + n);
    let argv = arg_texts(args, 2 + n, args.len());
    Ok(ScriptRequest { script: arg_text(&args[0]), keys, argv })
}

/// EVAL script numkeys [key ...] [arg ...]: the script with its keys and
/// arguments (see `script_request`).
pub fn eval_request(args: &[Vec<u8>]) -> (r: Result<ScriptRequest, AikvError>)
    ensures
        match script_request(arg_views(args@), "EVAL"@) {
            Err(f) => r matches Err(e) && error_models(e, f),
            Ok(q) => r matches Ok(req) && req.view_of() == q,
        },
{
    parse_script_request(args, "EVAL")
}

impl ScriptCache {
    /// Every digest is cached once.
    pub closed spec fn wf(&self) -> bool {
        distinct_keys(cache_views(self.entries@))
    }

    /// The cached scripts, by digest text.
    pub closed spec fn cache(&self) -> Map<Seq<char>, Seq<char>> {
        map_of_pairs(cache_views(self.entries@))
    }

    /// An empty cache.
    pub fn new() -> (r: Self)
        ensures
            r.wf(),
            r.cache() == Map::<Seq<char>, Seq<char>>::empty(),
    {
        let r = ScriptCache { entries: Vec::new() };
        proof {
            assert(cache_views(r.entries@) =~= Seq::<(Seq<char>, Seq<char>)>::empty());
            assert(r.cache() =~= Map::<Seq<char>, Seq<char>>::empty());
        }
        r
    }

    /// The position of digest `sha` in the cache (the length when absent).
    fn find_script(&self, sha: &str) -> (r: usize)
        requires
            self.wf(),
        ensures
            r <= self.entries@.len(),
            (r < self.entries@.len()) == self.cache().contains_key(sha@),
            r < self.entries@.len() ==> cache_views(self.entries@)[r as int].0 == sha@
                && self.cache()[sha@] == cache_views(self.entries@)[r as int].1,
    {
        let ghost s = cache_views(self.entries@);
        let mut i: usize = 0;
        while i < self.entries.len()
            invariant
                i <= self.entries@.len(),
                s == cache_views(self.entries@),
                s.len() == self.entries@.len(),
                self.wf(),
                forall|j: int| 0 <= j < i ==> #[trigger] s[j].0 != sha@,
            decreases self.entries.len() - i,
        {
            if str_eq(self.entries[i].0.as_str(), sha) {
                proof {
                    lemma_key_index(s, i as int);
                }
                return i;
            }
            i = i + 1;
        }
        proof {
            if has_key(s, sha@) {
                let j = choose|j: int| 0 <= j < s.len() && #[trigger] s[j].0 == sha@;
                assert(s[j].0 != sha@);
            }
        }
        self.entries.len()
    }

    /// SCRIPT LOAD script: caches the script under its digest text and
    /// answers that text.
    pub fn script_load(&mut self, args: &[Vec<u8>]) -> (r: Result<RespValue, AikvError>)
        requires
            old(self).wf(),
        ensures
            final(self).wf(),
            models(r, load_step(old(self).cache(), arg_views(args@)).0),
            final(self).cache() == load_step(old(self).cache(), arg_views(args@)).1,
    {
        proof {
            lemma_arg_views(args@);
        }
        if args.len() != 1 {
            return Err(arity_error("SCRIPT LOAD"));
        }
        let script = arg_text(&args[0]);
        let sha = ScriptCommands::calculate_sha1(script.as_str());
        let at = self.find_script(sha.as_str());
        let ghost s = cache_views(self.entries@);
        let answer = text_bytes(sha.as_str());
        let entry = (string_of(sha.as_str()), script);
        let ghost e = (entry.0@, entry.1@);
        if at < self.entries.len() {
            proof {
                lemma_pairs_update(s, at as int, e);
            }
            self.entries.set(at, entry);
            proof {
                assert(cache_views(self.entries@) =~= s.update(at as int, e));
            }
        } else {
            proof {
                lemma_pairs_push(s, e);
            }
            self.entries.push(entry);
            proof {
                assert(cache_views(self.entries@) =~= s.push(e));
            }
        }
        Ok(RespValue::bulk_string(answer))
    }

    /// SCRIPT EXISTS sha1 [sha1 ...]: 1 for each digest that is cached, 0
    /// for each that is not.
    pub fn script_exists(&self, args: &[Vec<u8>]) -> (r: Result<RespValue, AikvError>)
        requires
            self.wf(),
        ensures
            models(r, exists_reply(self.cache(), arg_views(args@))),
    {
        proof {
            lemma_arg_views(args@);
        }
        if args.len() == 0 {
            return Err(arity_error("SCRIPT EXISTS"));
        }
        let ghost want = Seq::new(
            args@.len(),
            |i: int| Reply::Int(if self.cache().contains_key(key_of(args@[i]@)) { 1 } else { 0 }),
        );
        proof {
            assert(want =~= Seq::new(
                arg_views(args@).len(),
                |i: int| Reply::Int(if self.cache().contains_key(key_of(arg_views(args@)[i])) { 1 } else { 0 }),
            ));
        }
        let mut items: Vec<RespValue> = Vec::new();
        let mut i: usize = 0;
        while i < args.len()
            invariant
                i <= args@.len(),
                self.wf(),
                items@.len() == i,
                want == Seq::new(
                    args@.len(),
                    |i: int| Reply::Int(if self.cache().contains_key(key_of(args@[i]@)) { 1 } else { 0 }),
                ),
                forall|j: int| 0 <= j < i ==> value_models(#[trigger] items@[j], want[j]),
            decreases args.len() - i,
        {
            let sha = arg_text(&args[i]);
            let at = self.find_script(sha.as_str());
            items.push(RespValue::integer(if at < self.entries.len() { 1 } else { 0 }));
            i = i + 1;
        }
        Ok(RespValue::array(items))
    }

    /// SCRIPT FLUSH [ASYNC | SYNC]: empties the cache.
    pub fn script_flush(&mut self) -> (r: Result<RespValue, AikvError>)
        requires
            old(self).wf(),
        ensures
            final(self).wf(),
            final(self).cache() == Map::<Seq<char>, Seq<char>>::empty(),
            models(r, ok_reply()),
    {
        self.entries = Vec::new();
        proof {
            assert(cache_views(self.entries@) =~= Seq::<(Seq<char>, Seq<char>)>::empty());
            assert(self.cache() =~= Map::<Seq<char>, Seq<char>>::empty());
        }
        Ok(RespValue::ok())
    }

    /// The script that EVALSHA names: the cached script under digest text
    /// `sha`.
    pub fn cached_script(&self, sha: &str) -> (r: Option<String>)
        requires
            self.wf(),
        ensures
            match r {
                Some(t) => self.cache().contains_key(sha@) && t@ == self.cache()[sha@],
                None => !self.cache().contains_key(sha@),
            },
    {
        let at = self.find_script(sha);
        if at < self.entries.len() {
            Some(string_of(self.entries[at].1.as_str()))
        } else {
            None
        }
    }

}

impl ScriptCommands {
    /// The keyspace is well formed and every digest is cached once.
    pub closed spec fn wf(&self) -> bool {
        &&& self.storage.wf()
        &&& self.script_cache.wf()
        &&& self.key_lock_manager.wf()
    }

    /// The cached scripts, by digest text.
    pub closed spec fn cache(&self) -> Map<Seq<char>, Seq<char>> {
        self.script_cache.cache()
    }

    /// The keyspace scripts run against.
    pub closed spec fn keyspace(&self) -> Seq<crate::storage::DbView> {
        self.storage@
    }

    /// How long a script waits at most for its keys.
    pub closed spec fn lock_timeout(&self) -> Duration {
        self.key_lock_manager.timeout_spec()
    }

    /// An engine over `storage` whose scripts wait at most 30 seconds for
    /// their keys, with an empty cache.
    pub fn new(storage: StorageEngine) -> (r: Self)
        requires
            storage.wf(),
        ensures
            r.wf(),
            r.keyspace() == storage@,
            r.cache() == Map::<Seq<char>, Seq<char>>::empty(),
            r.lock_timeout() == crate::cluster::config::spec_duration_from_secs(30),
            crate::cluster::config::spec_duration_as_millis(r.lock_timeout()) == 30_000,
    {
        Self::with_lock_timeout(storage, crate::cluster::config::duration_from_secs(30))
    }

    /// An engine whose scripts wait at most `lock_timeout` for their keys.
    pub fn with_lock_timeout(storage: StorageEngine, lock_timeout: Duration) -> (r: Self)
        requires
            storage.wf(),
        ensures
            r.wf(),
            r.keyspace() == storage@,
            r.cache() == Map::<Seq<char>, Seq<char>>::empty(),
            r.lock_timeout() == lock_timeout,
    {
        ScriptCommands {
            storage,
            script_cache: ScriptCache::new(),
            key_lock_manager: KeyLockManager::new(lock_timeout),
        }
    }

    /// The digest text a script is cached under (see `script_sha`).
    pub fn calculate_sha1(script: &str) -> (r: String)
        ensures
            r@ == script_sha(script@),
    {
        let bytes = text_bytes(script);
        let digest = sha1_digest(bytes.as_slice());
        hex_text(&digest)
    }

    /// SCRIPT LOAD script: caches the script under its digest text and
    /// answers that text.
    pub fn script_load(&mut self, args: &[Vec<u8>]) -> (r: Result<RespValue, AikvError>)
        requires
            old(self).wf(),
        ensures
            final(self).wf(),
            final(self).keyspace() == old(self).keyspace(),
            final(self).lock_timeout() == old(self).lock_timeout(),
            models(r, load_step(old(self).cache(), arg_views(args@)).0),
            final(self).cache() == load_step(old(self).cache(), arg_views(args@)).1,
    {
        self.script_cache.script_load(args)
    }

    /// SCRIPT EXISTS sha1 [sha1 ...]: 1 for each digest that is cached, 0
    /// for each that is not.
    pub fn script_exists(&self, args: &[Vec<u8>]) -> (r: Result<RespValue, AikvError>)
        requires
            self.wf(),
        ensures
            models(r, exists_reply(self.cache(), arg_views(args@))),
    {
        self.script_cache.script_exists(args)
    }

    /// SCRIPT FLUSH [ASYNC | SYNC]: empties the cache.
    pub fn script_flush(&mut self, _args: &[Vec<u8>]) -> (r: Result<RespValue, AikvError>)
        requires
            old(self).wf(),
        ensures
            final(self).wf(),
            final(self).keyspace() == old(self).keyspace(),
            final(self).lock_timeout() == old(self).lock_timeout(),
            final(self).cache() == Map::<Seq<char>, Seq<char>>::empty(),
            models(r, ok_reply()),
    {
        self.script_cache.script_flush()
    }

    /// The script that EVALSHA names: the cached script under digest text
    /// `sha`.
    pub fn cached_script(&self, sha: &str) -> (r: Option<String>)
        requires
            self.wf(),
        ensures
            match r {
                Some(t) => self.cache().contains_key(sha@) && t@ == self.cache()[sha@],
                None => !self.cache().contains_key(sha@),
            },
    {
        self.script_cache.cached_script(sha)
    }

    /// EVALSHA sha1 numkeys [key ...] [arg ...]: the cached script with its
    /// keys and arguments (see `script_request`), or NOSCRIPT when the
    /// digest is not cached.
    pub fn evalsha_request(&self, args: &[Vec<u8>]) -> (r: Result<ScriptRequest, AikvError>)
        requires
            self.wf(),
        ensures
            ({
                let a = arg_views(args@);
                match script_request(a, "EVALSHA"@) {
                    Err(f) => r matches Err(e) && error_models(e, f),
                    Ok(q) => if self.cache().contains_key(key_of(a[0])) {
                        r matches Ok(req) && req.view_of() == (self.cache()[key_of(a[0])], q.1, q.2)
                    } else {
                        r matches Err(e) && error_models(e, Failure::Invalid("NOSCRIPT No matching script. Use EVAL."@))
                    },
                }
            }),
    {
        let req = match parse_script_request(args, "EVALSHA") {
            Ok(q) => q,
            Err(e) => {
                return Err(e);
            },
        };
        proof {
            lemma_arg_views(args@);
        }
        match self.cached_script(req.script.as_str()) {
            Some(text) => Ok(ScriptRequest { script: text, keys: req.keys, argv: req.argv }),
            None => Err(invalid_error("NOSCRIPT No matching script. Use EVAL.")),
        }
    }

    /// SCRIPT KILL: no script is ever left running, so there is nothing to
    /// stop.
    pub fn script_kill(&self, _args: &[Vec<u8>]) -> (r: Result<RespValue, AikvError>)
        ensures
            models(r, Reply::Fail(Failure::Invalid("NOTBUSY No scripts in execution right now."@))),
    {
        Err(invalid_error("NOTBUSY No scripts in execution right now."))
    }

    /// A command call of a running script (see `script_call`), whose reads
    /// go to the script's buffer and then to this engine's keyspace.
    pub fn call(
        &self,
        tx: &mut ScriptTransaction,
        args: &[ScriptArg],
        throw_error: bool,
        now: u64,
    ) -> (r: Result<Option<RespValue>, String>)
        requires
            self.wf(),
            old(tx).wf(),
            old(tx).db() < self.keyspace().len(),
        ensures
            final(tx).wf(),
            final(tx).db() == old(tx).db(),
            call_holds(script_call_spec(old(tx)@, self.keyspace()[old(tx).db()], args@, throw_error, now).0, r),
            final(tx)@ == script_call_spec(old(tx)@, self.keyspace()[old(tx).db()], args@, throw_error, now).1,
    {
        script_call(tx, &self.storage, args, throw_error, now)
    }

    /// Applies the writes of a script that ran to its end; a script that
    /// failed is dropped instead, leaving the keyspace as it was.
    pub fn commit(&mut self, tx: ScriptTransaction, now: u64)
        requires
            old(self).wf(),
            tx.wf(),
            tx.db() < old(self).keyspace().len(),
        ensures
            final(self).wf(),
            final(self).cache() == old(self).cache(),
            final(self).lock_timeout() == old(self).lock_timeout(),
            final(self).keyspace() == old(self).keyspace().update(
                tx.db(),
                committed(old(self).keyspace()[tx.db()], tx@),
            ),
    {
        tx.commit(&mut self.storage, now);
    }
}

} // verus!
