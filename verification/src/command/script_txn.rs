//! The write buffer a script runs against, and the commands a script calls
//! through it: reads see the script's own pending writes, and nothing
//! reaches the keyspace until the buffer is committed.
use crate::command::hash::{
    field_of, find_field, flat_pairs, hash_get, hash_or_empty, hash_put, hdel_fold, hset_fold, lemma_pair_index, put_field,
    remove_field, value_answer, value_reply, FieldPair, HashCommands,
};
use crate::command::list::{bulk_list, bulks, copy_range_of, list_or_empty, list_pos, max_int, min_int, reversed};
use crate::command::set::{add_member, has_member, remove_member, sadd_fold, set_or_empty, srem_fold};
use crate::command::reply::{
    arg_i64, arg_option, arg_usize, usize_arg, arg_text, arg_views, arity_error, int_arg, int_bytes, int_to_bytes, invalid_error,
    key_of, lemma_arg_views, models, ok_reply, option_of, value_models, text_bytes, wrong_type_msg, wrong_type_error, db_range_msg, error_models, Failure, Reply,
};
use crate::error::{error_text, AikvError};
use crate::keyed::{distinct_keys, has_key, lemma_key_index, lemma_pairs_push, lemma_pairs_update, map_of_pairs};
use crate::protocol::RespValue;
use crate::storage::{
    bytes_views, copy_bytes, lookup, pair_views, DbView, EntryView, StorageEngine, StoredValue, StrLookup, Typed, ValueView,
};
use crate::text::{push_str, str_eq, string_of};
use vstd::prelude::*;
use vstd::utf8::encode_utf8;

verus! {

/// Pending writes by key: `Some(v)` stores `v`, `None` deletes the key.
pub type WriteMap = Map<Seq<char>, Option<ValueView>>;

/// The contents of an optional value.
pub open spec fn opt_value(v: Option<StoredValue>) -> Option<ValueView> {
    match v {
        Some(x) => Some(x@),
        None => None,
    }
}

/// The pending writes, key by key, as mathematical values.
pub open spec fn write_views(s: Seq<(String, Option<StoredValue>)>) -> Seq<(Seq<char>, Option<ValueView>)> {
    s.map_values(|p: (String, Option<StoredValue>)| (p.0@, opt_value(p.1)))
}

/// What `key` holds for a script at time `now`: its pending write when it
/// has one, else what database `d` holds.
pub open spec fn tx_value(w: WriteMap, d: DbView, key: Seq<char>, now: u64) -> Option<ValueView> {
    if w.contains_key(key) {
        w[key]
    } else {
        match lookup(d, key, now) {
            Some(e) => Some(e.value),
            None => None,
        }
    }
}

/// What `key` holds for a script when read as a string.
pub open spec fn tx_str(w: WriteMap, d: DbView, key: Seq<char>, now: u64) -> StrLookup {
    match tx_value(w, d, key, now) {
        None => StrLookup::Absent,
        Some(ValueView::Str(b)) => StrLookup::Found(b),
        Some(_) => StrLookup::WrongType,
    }
}

/// Database `d` once the writes `w` are applied: written keys hold their
/// values with no expiry, deleted keys are gone, the others are unchanged.
pub open spec fn committed(d: DbView, w: WriteMap) -> DbView {
    Map::new(
        |k: Seq<char>|
            if w.contains_key(k) {
                w[k] is Some
            } else {
                d.contains_key(k)
            },
        |k: Seq<char>|
            if w.contains_key(k) {
                EntryView { value: w[k].unwrap(), expire_at: None }
            } else {
                d[k]
            },
    )
}

/// Database `d` after one write.
pub open spec fn apply_write(d: DbView, e: (Seq<char>, Option<ValueView>)) -> DbView {
    match e.1 {
        Some(v) => d.insert(e.0, EntryView { value: v, expire_at: None }),
        None => d.remove(e.0),
    }
}

/// Database `d` after the writes of `s`, first to last.
pub open spec fn apply_writes(d: DbView, s: Seq<(Seq<char>, Option<ValueView>)>) -> DbView
    decreases s.len(),
{
    if s.len() == 0 {
        d
    } else {
        apply_write(apply_writes(d, s.drop_last()), s.last())
    }
}

/// Writes with distinct keys, applied one by one, commit their map.
proof fn lemma_apply_writes(d: DbView, s: Seq<(Seq<char>, Option<ValueView>)>)
    requires
        distinct_keys(s),
    ensures
        apply_writes(d, s) == committed(d, map_of_pairs(s)),
    decreases s.len(),
{
    if s.len() == 0 {
        assert(committed(d, map_of_pairs(s)) =~= d);
    } else {
        let p = s.drop_last();
        let e = s.last();
        assert(distinct_keys(p)) by {
            assert forall|a: int, b: int| 0 <= a < b < p.len() implies #[trigger] p[a].0 != #[trigger] p[b].0 by {
                assert(s[a].0 != s[b].0);
            }
        }
        lemma_apply_writes(d, p);
        assert(!has_key(p, e.0)) by {
            if has_key(p, e.0) {
                let j = choose|j: int| 0 <= j < p.len() && #[trigger] p[j].0 == e.0;
                assert(s[j].0 != s[s.len() - 1].0);
            }
        }
        lemma_pairs_push(p, e);
        assert(p.push(e) =~= s);
        assert(apply_write(committed(d, map_of_pairs(p)), e) =~= committed(d, map_of_pairs(p).insert(e.0, e.1)));
    }
}

/// Committing makes the keyspace read as the script read it: after the
/// writes `w` are applied to `d`, every key holds what it held for the
/// script before the commit.
pub proof fn law_commit_reads_as_buffered(d: DbView, w: WriteMap, key: Seq<char>, now: u64)
    ensures
        tx_value(w, d, key, now) == (match lookup(committed(d, w), key, now) {
            Some(e) => Some(e.value),
            None => None,
        }),
{
}

/// A script reads back what it wrote: after a write of `v` to `key`, the
/// key holds `v` for the script, whatever the keyspace holds.
pub proof fn law_read_own_write(w: WriteMap, d: DbView, key: Seq<char>, v: Option<ValueView>, now: u64)
    ensures
        tx_value(w.insert(key, v), d, key, now) == v,
{
}

/// The write buffer of one script run against one database.
pub struct ScriptTransaction {
    db_index: usize,
    writes: Vec<(String, Option<StoredValue>)>,
}

impl View for ScriptTransaction {
    type V = WriteMap;

    closed spec fn view(&self) -> WriteMap {
        map_of_pairs(write_views(self.writes@))
    }
}

impl ScriptTransaction {
    /// Each key is written at most once in the buffer.
    pub closed spec fn wf(&self) -> bool {
        distinct_keys(write_views(self.writes@))
    }

    /// The database the script runs against.
    pub closed spec fn db(&self) -> int {
        self.db_index as int
    }

    /// An empty buffer for database `db_index`.
    pub fn new(db_index: usize) -> (r: Self)
        ensures
            r.wf(),
            r@ == Map::<Seq<char>, Option<ValueView>>::empty(),
            r.db() == db_index,
    {
        let r = ScriptTransaction { db_index, writes: Vec::new() };
        proof {
            assert(write_views(r.writes@) =~= Seq::<(Seq<char>, Option<ValueView>)>::empty());
            assert(r@ =~= Map::<Seq<char>, Option<ValueView>>::empty());
        }
        r
    }

    /// The database the script runs against.
    pub fn db_index(&self) -> (r: usize)
        ensures
            r == self.db(),
    {
        self.db_index
    }

    /// The position of the pending write of `key`, if any.
    fn find(&self, key: &str) -> (r: Option<usize>)
        requires
            self.wf(),
        ensures
            match r {
                Some(i) => i < self.writes@.len() && write_views(self.writes@)[i as int].0 == key@,
                None => !has_key(write_views(self.writes@), key@),
            },
    {
        let mut i: usize = 0;
        while i < self.writes.len()
            invariant
                i <= self.writes@.len(),
                forall|j: int| 0 <= j < i ==> #[trigger] write_views(self.writes@)[j].0 != key@,
            decreases self.writes@.len() - i,
        {
            if str_eq(self.writes[i].0.as_str(), key) {
                return Some(i);
            }
            i = i + 1;
        }
        proof {
            if has_key(write_views(self.writes@), key@) {
                let j = choose|j: int| 0 <= j < write_views(self.writes@).len() && #[trigger] write_views(self.writes@)[j].0 == key@;
                assert(write_views(self.writes@)[j].0 != key@);
            }
        }
        None
    }

    /// Records a write of `v` (a deletion when `None`) to `key`.
    fn put(&mut self, key: String, v: Option<StoredValue>)
        requires
            old(self).wf(),
        ensures
            final(self).wf(),
            final(self)@ == old(self)@.insert(key@, opt_value(v)),
            final(self).db() == old(self).db(),
    {
        let ghost k = key@;
        let ghost x = opt_value(v);
        let ghost before = write_views(self.writes@);
        match self.find(key.as_str()) {
            Some(i) => {
                proof {
                    lemma_pairs_update(before, i as int, (k, x));
                }
                self.writes.set(i, (key, v));
                proof {
                    assert(write_views(self.writes@) =~= before.update(i as int, (k, x)));
                }
            },
            None => {
                proof {
                    lemma_pairs_push(before, (k, x));
                }
                self.writes.push((key, v));
                proof {
                    assert(write_views(self.writes@) =~= before.push((k, x)));
                }
            },
        }
    }

    /// What `key` holds for the script at time `now`.
    pub fn get_value(&self, storage: &StorageEngine, key: &str, now: u64) -> (r: Option<StoredValue>)
        requires
            self.wf(),
            storage.wf(),
            self.db() < storage@.len(),
        ensures
            opt_value(r) == tx_value(self@, storage@[self.db()], key@, now),
    {
        match self.find(key) {
            Some(i) => {
                proof {
                    lemma_key_index(write_views(self.writes@), i as int);
                }
                match &self.writes[i].1 {
                    Some(v) => Some(v.copy()),
                    None => None,
                }
            },
            None => storage.get_value(self.db_index, key, now),
        }
    }

    /// The string `key` holds for the script; an error when it holds a
    /// value of another kind.
    pub fn get(&self, storage: &StorageEngine, key: &str, now: u64) -> (r: Result<Option<Vec<u8>>, AikvError>)
        requires
            self.wf(),
            storage.wf(),
            self.db() < storage@.len(),
        ensures
            match tx_str(self@, storage@[self.db()], key@, now) {
                StrLookup::Absent => r matches Ok(None),
                StrLookup::Found(b) => r matches Ok(Some(v)) && v@ == b,
                StrLookup::WrongType => r matches Err(e) && crate::command::reply::error_models(e, Failure::WrongType),
            },
    {
        match self.get_value(storage, key, now) {
            None => Ok(None),
            Some(StoredValue::Str(b)) => Ok(Some(b)),
            Some(_) => Err(wrong_type_error()),
        }
    }

    /// Whether `key` holds a value for the script.
    pub fn holds_key(&self, storage: &StorageEngine, key: &str, now: u64) -> (r: bool)
        requires
            self.wf(),
            storage.wf(),
            self.db() < storage@.len(),
        ensures
            r == tx_value(self@, storage@[self.db()], key@, now) is Some,
    {
        match self.find(key) {
            Some(i) => {
                proof {
                    lemma_key_index(write_views(self.writes@), i as int);
                }
                self.writes[i].1.is_some()
            },
            None => storage.exists_in_db(self.db_index, key, now),
        }
    }

    /// Stores the string `value` under `key`.
    pub fn set(&mut self, key: String, value: Vec<u8>)
        requires
            old(self).wf(),
        ensures
            final(self).wf(),
            final(self)@ == old(self)@.insert(key@, Some(ValueView::Str(value@))),
            final(self).db() == old(self).db(),
    {
        self.put(key, Some(StoredValue::Str(value)));
    }

    /// Deletes `key`.
    pub fn delete(&mut self, key: String)
        requires
            old(self).wf(),
        ensures
            final(self).wf(),
            final(self)@ == old(self)@.insert(key@, None),
            final(self).db() == old(self).db(),
    {
        self.put(key, None);
    }

    /// Applies the pending writes to the script's database at once:
    /// written keys hold their values with no expiry, deleted keys are
    /// removed, every other key is left as it was.
    pub fn commit(self, storage: &mut StorageEngine, now: u64)
        requires
            self.wf(),
            old(storage).wf(),
            self.db() < old(storage)@.len(),
        ensures
            final(storage).wf(),
            final(storage)@ == old(storage)@.update(self.db(), committed(old(storage)@[self.db()], self@)),
    {
        let db = self.db_index;
        let ghost d0 = storage@[db as int];
        let ghost s = write_views(self.writes@);
        let mut i: usize = 0;
        while i < self.writes.len()
            invariant
                i <= self.writes@.len(),
                s == write_views(self.writes@),
                db < storage@.len(),
                db < old(storage)@.len(),
                storage.wf(),
                storage@ == old(storage)@.update(db as int, apply_writes(d0, s.take(i as int))),
                d0 == old(storage)@[db as int],
            decreases self.writes@.len() - i,
        {
            let ghost before = storage@;
            proof {
                assert(s.take(i as int + 1).drop_last() =~= s.take(i as int));
                assert(s.take(i as int + 1).last() == s[i as int]);
            }
            match &self.writes[i].1 {
                Some(v) => {
                    let key = string_of(self.writes[i].0.as_str());
                    storage.set_value(db, key, v.copy(), None);
                },
                None => {
                    storage.delete_from_db(db, self.writes[i].0.as_str(), now);
                },
            }
            proof {
                assert(apply_writes(d0, s.take(i as int + 1)) == apply_write(apply_writes(d0, s.take(i as int)), s[i as int]));
                assert(before[db as int] == apply_writes(d0, s.take(i as int)));
                assert(storage@ == before.update(db as int, apply_write(before[db as int], s[i as int])));
                assert(storage@ =~= old(storage)@.update(db as int, apply_writes(d0, s.take(i as int + 1))));
            }
            i = i + 1;
        }
        proof {
            assert(s.take(i as int) =~= s);
            lemma_apply_writes(d0, s);
        }
    }
}

/// A command's answer and the writes it leaves.
pub open spec fn step_holds(step: (Reply, WriteMap), r: Result<RespValue, AikvError>, after: WriteMap) -> bool {
    models(r, step.0) && after == step.1
}

/// GET key
pub open spec fn get_step(w: WriteMap, d: DbView, a: Seq<Seq<u8>>, now: u64) -> (Reply, WriteMap) {
    if a.len() != 1 {
        (Reply::Fail(Failure::Arity("GET"@)), w)
    } else {
        (
            match tx_str(w, d, key_of(a[0]), now) {
                StrLookup::Absent => Reply::Nil,
                StrLookup::Found(b) => Reply::Bulk(b),
                StrLookup::WrongType => Reply::Fail(Failure::WrongType),
            },
            w,
        )
    }
}

/// SET key value
pub open spec fn set_step(w: WriteMap, a: Seq<Seq<u8>>) -> (Reply, WriteMap) {
    if a.len() < 2 {
        (Reply::Fail(Failure::Arity("SET"@)), w)
    } else {
        (ok_reply(), w.insert(key_of(a[0]), Some(ValueView::Str(a[1]))))
    }
}

/// Deletes the keys of `keys` in turn; counts those that held a value.
pub open spec fn del_fold(w: WriteMap, d: DbView, keys: Seq<Seq<u8>>, now: u64) -> (int, WriteMap)
    decreases keys.len(),
{
    if keys.len() == 0 {
        (0, w)
    } else {
        let prev = del_fold(w, d, keys.drop_last(), now);
        let k = key_of(keys.last());
        if tx_value(prev.1, d, k, now) is Some {
            (prev.0 + 1, prev.1.insert(k, None))
        } else {
            prev
        }
    }
}

/// DEL key [key ...]
pub open spec fn del_step(w: WriteMap, d: DbView, a: Seq<Seq<u8>>, now: u64) -> (Reply, WriteMap) {
    if a.len() == 0 {
        (Reply::Fail(Failure::Arity("DEL"@)), w)
    } else {
        let f = del_fold(w, d, a, now);
        (Reply::Int(f.0), f.1)
    }
}

/// How many of `keys` hold a value, each counted as often as it is named.
pub open spec fn exists_count(w: WriteMap, d: DbView, keys: Seq<Seq<u8>>, now: u64) -> int
    decreases keys.len(),
{
    if keys.len() == 0 {
        0
    } else {
        exists_count(w, d, keys.drop_last(), now) + if tx_value(w, d, key_of(keys.last()), now) is Some {
            1int
        } else {
            0int
        }
    }
}

/// EXISTS key [key ...]
pub open spec fn exists_step(w: WriteMap, d: DbView, a: Seq<Seq<u8>>, now: u64) -> (Reply, WriteMap) {
    if a.len() == 0 {
        (Reply::Fail(Failure::Arity("EXISTS"@)), w)
    } else {
        (Reply::Int(exists_count(w, d, a, now)), w)
    }
}

/// Stores the number `n` under `key`, unless it leaves the `i64` range.
pub open spec fn bump_to(w: WriteMap, key: Seq<char>, n: int) -> (Reply, WriteMap) {
    if n < i64::MIN || n > i64::MAX {
        (Reply::Fail(Failure::Invalid("ERR increment or decrement would overflow"@)), w)
    } else {
        (Reply::Int(n), w.insert(key, Some(ValueView::Str(int_bytes(n)))))
    }
}

/// Adds `delta` to the number `key` holds (0 when it holds nothing).
pub open spec fn bump_step(w: WriteMap, d: DbView, key: Seq<char>, delta: int, now: u64) -> (Reply, WriteMap) {
    match tx_str(w, d, key, now) {
        StrLookup::WrongType => (Reply::Fail(Failure::WrongType), w),
        StrLookup::Absent => bump_to(w, key, delta),
        StrLookup::Found(b) => match int_arg(b) {
            None => (Reply::Fail(Failure::Invalid("value is not an integer"@)), w),
            Some(c) => bump_to(w, key, c + delta),
        },
    }
}

/// INCR key and DECR key: adds `delta`.
pub open spec fn step_by_one(w: WriteMap, d: DbView, name: Seq<char>, a: Seq<Seq<u8>>, delta: int, now: u64) -> (
    Reply,
    WriteMap,
) {
    if a.len() != 1 {
        (Reply::Fail(Failure::Arity(name)), w)
    } else {
        bump_step(w, d, key_of(a[0]), delta, now)
    }
}

/// INCRBY key increment and DECRBY key decrement (`negate`).
pub open spec fn step_by(w: WriteMap, d: DbView, name: Seq<char>, a: Seq<Seq<u8>>, negate: bool, now: u64) -> (
    Reply,
    WriteMap,
) {
    if a.len() != 2 {
        (Reply::Fail(Failure::Arity(name)), w)
    } else {
        match int_arg(a[1]) {
            None => (
                Reply::Fail(
                    Failure::Invalid(
                        if negate {
                            "decrement is not an integer"@
                        } else {
                            "increment is not an integer"@
                        },
                    ),
                ),
                w,
            ),
            Some(n) => bump_step(w, d, key_of(a[0]), if negate { -n } else { n }, now),
        }
    }
}

/// APPEND key value
pub open spec fn append_step(w: WriteMap, d: DbView, a: Seq<Seq<u8>>, now: u64) -> (Reply, WriteMap) {
    if a.len() != 2 {
        (Reply::Fail(Failure::Arity("APPEND"@)), w)
    } else {
        let key = key_of(a[0]);
        match tx_str(w, d, key, now) {
            StrLookup::WrongType => (Reply::Fail(Failure::WrongType), w),
            StrLookup::Absent => (Reply::Int(a[1].len() as int), w.insert(key, Some(ValueView::Str(a[1])))),
            StrLookup::Found(b) => (Reply::Int((b + a[1]).len() as int), w.insert(key, Some(ValueView::Str(b + a[1])))),
        }
    }
}

/// STRLEN key
pub open spec fn strlen_step(w: WriteMap, d: DbView, a: Seq<Seq<u8>>, now: u64) -> (Reply, WriteMap) {
    if a.len() != 1 {
        (Reply::Fail(Failure::Arity("STRLEN"@)), w)
    } else {
        (
            match tx_str(w, d, key_of(a[0]), now) {
                StrLookup::Absent => Reply::Int(0),
                StrLookup::Found(b) => Reply::Int(b.len() as int),
                StrLookup::WrongType => Reply::Fail(Failure::WrongType),
            },
            w,
        )
    }
}

/// What the command `name` (upper case) with arguments `a` answers and the
/// writes it leaves; `None` for a command scripts cannot call.
pub open spec fn call_step(w: WriteMap, d: DbView, name: Seq<char>, a: Seq<Seq<u8>>, now: u64) -> Option<
    (Reply, WriteMap),
> {
    if name == "GET"@ {
        Some(get_step(w, d, a, now))
    } else if name == "SET"@ {
        Some(set_step(w, a))
    } else if name == "DEL"@ {
        Some(del_step(w, d, a, now))
    } else if name == "EXISTS"@ {
        Some(exists_step(w, d, a, now))
    } else if name == "INCR"@ {
        Some(step_by_one(w, d, "INCR"@, a, 1, now))
    } else if name == "DECR"@ {
        Some(step_by_one(w, d, "DECR"@, a, -1, now))
    } else if name == "INCRBY"@ {
        Some(step_by(w, d, "INCRBY"@, a, false, now))
    } else if name == "DECRBY"@ {
        Some(step_by(w, d, "DECRBY"@, a, true, now))
    } else if name == "APPEND"@ {
        Some(append_step(w, d, a, now))
    } else if name == "STRLEN"@ {
        Some(strlen_step(w, d, a, now))
    } else {
        hash_call_step(w, d, name, a, now)
    }
}

fn call_get(tx: &ScriptTransaction, storage: &StorageEngine, a: &[Vec<u8>], now: u64) -> (r: Result<RespValue, AikvError>)
    requires
        tx.wf(),
        storage.wf(),
        tx.db() < storage@.len(),
    ensures
        models(r, get_step(tx@, storage@[tx.db()], arg_views(a@), now).0),
{
    proof {
        lemma_arg_views(a@);
    }
    if a.len() != 1 {
        return Err(arity_error("GET"));
    }
    let key = arg_text(&a[0]);
    match tx.get(storage, key.as_str(), now) {
        Ok(Some(b)) => Ok(RespValue::BulkString(Some(b))),
        Ok(None) => Ok(RespValue::Null),
        Err(e) => Err(e),
    }
}

fn call_set(tx: &mut ScriptTransaction, a: &[Vec<u8>]) -> (r: Result<RespValue, AikvError>)
    requires
        old(tx).wf(),
    ensures
        final(tx).wf(),
        final(tx).db() == old(tx).db(),
        step_holds(set_step(old(tx)@, arg_views(a@)), r, final(tx)@),
{
    proof {
        lemma_arg_views(a@);
    }
    if a.len() < 2 {
        return Err(arity_error("SET"));
    }
    let key = arg_text(&a[0]);
    tx.set(key, copy_bytes(&a[1]));
    Ok(RespValue::SimpleString(string_of("OK")))
}

fn call_del(tx: &mut ScriptTransaction, storage: &StorageEngine, a: &[Vec<u8>], now: u64) -> (r: Result<RespValue, AikvError>)
    requires
        old(tx).wf(),
        storage.wf(),
        old(tx).db() < storage@.len(),
    ensures
        final(tx).wf(),
        final(tx).db() == old(tx).db(),
        step_holds(del_step(old(tx)@, storage@[old(tx).db()], arg_views(a@), now), r, final(tx)@),
{
    proof {
        lemma_arg_views(a@);
    }
    if a.len() == 0 {
        return Err(arity_error("DEL"));
    }
    let ghost w0 = tx@;
    let ghost db = tx.db();
    let ghost d = storage@[db];
    let ghost keys = arg_views(a@);
    let mut count: usize = 0;
    let mut i: usize = 0;
    while i < a.len()
        invariant
            i <= a@.len(),
            count <= i,
            tx.wf(),
            tx.db() == db,
            storage.wf(),
            db < storage@.len(),
            d == storage@[db],
            keys == arg_views(a@),
            keys.len() == a@.len(),
            forall|j: int| 0 <= j < a@.len() ==> #[trigger] keys[j] == a@[j]@,
            (count as int, tx@) == del_fold(w0, d, keys.take(i as int), now),
        decreases a@.len() - i,
    {
        proof {
            assert(keys.take(i as int + 1).drop_last() =~= keys.take(i as int));
        }
        let key = arg_text(&a[i]);
        if tx.holds_key(storage, key.as_str(), now) {
            tx.delete(key);
            count = count + 1;
        }
        i = i + 1;
    }
    proof {
        assert(keys.take(i as int) =~= keys);
    }
    Ok(RespValue::Integer(count as i64))
}

fn call_exists(tx: &ScriptTransaction, storage: &StorageEngine, a: &[Vec<u8>], now: u64) -> (r: Result<RespValue, AikvError>)
    requires
        tx.wf(),
        storage.wf(),
        tx.db() < storage@.len(),
    ensures
        models(r, exists_step(tx@, storage@[tx.db()], arg_views(a@), now).0),
{
    proof {
        lemma_arg_views(a@);
    }
    if a.len() == 0 {
        return Err(arity_error("EXISTS"));
    }
    let ghost d = storage@[tx.db()];
    let ghost keys = arg_views(a@);
    let mut count: usize = 0;
    let mut i: usize = 0;
    while i < a.len()
        invariant
            i <= a@.len(),
            count <= i,
            tx.wf(),
            storage.wf(),
            tx.db() < storage@.len(),
            d == storage@[tx.db()],
            keys == arg_views(a@),
            keys.len() == a@.len(),
            forall|j: int| 0 <= j < a@.len() ==> #[trigger] keys[j] == a@[j]@,
            count as int == exists_count(tx@, d, keys.take(i as int), now),
        decreases a@.len() - i,
    {
        proof {
            assert(keys.take(i as int + 1).drop_last() =~= keys.take(i as int));
        }
        let key = arg_text(&a[i]);
        if tx.holds_key(storage, key.as_str(), now) {
            count = count + 1;
        }
        i = i + 1;
    }
    proof {
        assert(keys.take(i as int) =~= keys);
    }
    Ok(RespValue::Integer(count as i64))
}

/// Adds `amount` (subtracts it when `negate`) to the number `key` holds.
fn call_bump(
    tx: &mut ScriptTransaction,
    storage: &StorageEngine,
    key: String,
    amount: i64,
    negate: bool,
    now: u64,
) -> (r: Result<RespValue, AikvError>)
    requires
        old(tx).wf(),
        storage.wf(),
        old(tx).db() < storage@.len(),
    ensures
        final(tx).wf(),
        final(tx).db() == old(tx).db(),
        step_holds(
            bump_step(old(tx)@, storage@[old(tx).db()], key@, if negate { -amount } else { amount as int }, now),
            r,
            final(tx)@,
        ),
{
    let cur: i64 = match tx.get(storage, key.as_str(), now) {
        Err(e) => {
            return Err(e);
        },
        Ok(None) => 0,
        Ok(Some(b)) => match arg_i64(&b) {
            Some(c) => c,
            None => {
                return Err(invalid_error("value is not an integer"));
            },
        },
    };
    let next = if negate {
        cur.checked_sub(amount)
    } else {
        cur.checked_add(amount)
    };
    match next {
        None => Err(invalid_error("ERR increment or decrement would overflow")),
        Some(n) => {
            tx.set(key, int_to_bytes(n));
            Ok(RespValue::Integer(n))
        },
    }
}

fn call_step_by_one(
    tx: &mut ScriptTransaction,
    storage: &StorageEngine,
    name: &str,
    a: &[Vec<u8>],
    negate: bool,
    now: u64,
) -> (r: Result<RespValue, AikvError>)
    requires
        old(tx).wf(),
        storage.wf(),
        old(tx).db() < storage@.len(),
    ensures
        final(tx).wf(),
        final(tx).db() == old(tx).db(),
        step_holds(
            step_by_one(old(tx)@, storage@[old(tx).db()], name@, arg_views(a@), if negate { -1 } else { 1 }, now),
            r,
            final(tx)@,
        ),
{
    proof {
        lemma_arg_views(a@);
    }
    if a.len() != 1 {
        return Err(arity_error(name));
    }
    let key = arg_text(&a[0]);
    call_bump(tx, storage, key, 1, negate, now)
}

fn call_step_by(
    tx: &mut ScriptTransaction,
    storage: &StorageEngine,
    name: &str,
    a: &[Vec<u8>],
    negate: bool,
    now: u64,
) -> (r: Result<RespValue, AikvError>)
    requires
        old(tx).wf(),
        storage.wf(),
        old(tx).db() < storage@.len(),
    ensures
        final(tx).wf(),
        final(tx).db() == old(tx).db(),
        step_holds(step_by(old(tx)@, storage@[old(tx).db()], name@, arg_views(a@), negate, now), r, final(tx)@),
{
    proof {
        lemma_arg_views(a@);
    }
    if a.len() != 2 {
        return Err(arity_error(name));
    }
    let amount = match arg_i64(&a[1]) {
        Some(n) => n,
        None => {
            if negate {
                return Err(invalid_error("decrement is not an integer"));
            } else {
                return Err(invalid_error("increment is not an integer"));
            }
        },
    };
    let key = arg_text(&a[0]);
    call_bump(tx, storage, key, amount, negate, now)
}

fn call_append(tx: &mut ScriptTransaction, storage: &StorageEngine, a: &[Vec<u8>], now: u64) -> (r: Result<RespValue, AikvError>)
    requires
        old(tx).wf(),
        storage.wf(),
        old(tx).db() < storage@.len(),
    ensures
        final(tx).wf(),
        final(tx).db() == old(tx).db(),
        step_holds(append_step(old(tx)@, storage@[old(tx).db()], arg_views(a@), now), r, final(tx)@),
{
    proof {
        lemma_arg_views(a@);
    }
    if a.len() != 2 {
        return Err(arity_error("APPEND"));
    }
    let key = arg_text(&a[0]);
    let value = match tx.get(storage, key.as_str(), now) {
        Err(e) => {
            return Err(e);
        },
        Ok(None) => copy_bytes(&a[1]),
        Ok(Some(existing)) => {
            let mut combined = existing;
            let mut extra = copy_bytes(&a[1]);
            combined.append(&mut extra);
            combined
        },
    };
    let len = value.len();
    tx.set(key, value);
    Ok(RespValue::Integer(len as i64))
}

fn call_strlen(tx: &ScriptTransaction, storage: &StorageEngine, a: &[Vec<u8>], now: u64) -> (r: Result<RespValue, AikvError>)
    requires
        tx.wf(),
        storage.wf(),
        tx.db() < storage@.len(),
    ensures
        models(r, strlen_step(tx@, storage@[tx.db()], arg_views(a@), now).0),
{
    proof {
        lemma_arg_views(a@);
    }
    if a.len() != 1 {
        return Err(arity_error("STRLEN"));
    }
    let key = arg_text(&a[0]);
    match tx.get(storage, key.as_str(), now) {
        Ok(Some(b)) => Ok(RespValue::Integer(b.len() as i64)),
        Ok(None) => Ok(RespValue::Integer(0)),
        Err(e) => Err(e),
    }
}

/// Runs the command `name` (upper case) for a script; `None` when scripts
/// cannot call it.
fn run_command(tx: &mut ScriptTransaction, storage: &StorageEngine, name: &str, a: &[Vec<u8>], now: u64) -> (r: Option<
    Result<RespValue, AikvError>,
>)
    requires
        old(tx).wf(),
        storage.wf(),
        old(tx).db() < storage@.len(),
    ensures
        final(tx).wf(),
        final(tx).db() == old(tx).db(),
        match call_step(old(tx)@, storage@[old(tx).db()], name@, arg_views(a@), now) {
            None => r is None && final(tx)@ == old(tx)@,
            Some(step) => r matches Some(x) && step_holds(step, x, final(tx)@),
        },
{
    if str_eq(name, "GET") {
        Some(call_get(tx, storage, a, now))
    } else if str_eq(name, "SET") {
        Some(call_set(tx, a))
    } else if str_eq(name, "DEL") {
        Some(call_del(tx, storage, a, now))
    } else if str_eq(name, "EXISTS") {
        Some(call_exists(tx, storage, a, now))
    } else if str_eq(name, "INCR") {
        Some(call_step_by_one(tx, storage, "INCR", a, false, now))
    } else if str_eq(name, "DECR") {
        Some(call_step_by_one(tx, storage, "DECR", a, true, now))
    } else if str_eq(name, "INCRBY") {
        Some(call_step_by(tx, storage, "INCRBY", a, false, now))
    } else if str_eq(name, "DECRBY") {
        Some(call_step_by(tx, storage, "DECRBY", a, true, now))
    } else if str_eq(name, "APPEND") {
        Some(call_append(tx, storage, a, now))
    } else if str_eq(name, "STRLEN") {
        Some(call_strlen(tx, storage, a, now))
    } else {
        run_hash_command(tx, storage, name, a, now)
    }
}

/// A value a script hands to `redis.call`, as the script engine passes it.
pub enum ScriptArg {
    /// A string's bytes.
    Bytes(Vec<u8>),
    /// An integer.
    Integer(i64),
    /// A non-integer number, as the script engine writes it.
    Number(String),
    /// A boolean.
    Boolean(bool),
    /// Any other value (a table, a function, nil).
    Other,
}

/// The bytes an argument is passed to the command as: a string as it is,
/// a number as its decimal text, a boolean as `1` or `0`; `None` for any
/// other value.
pub open spec fn script_arg_bytes(a: ScriptArg) -> Option<Seq<u8>> {
    match a {
        ScriptArg::Bytes(b) => Some(b@),
        ScriptArg::Integer(n) => Some(int_bytes(n as int)),
        ScriptArg::Number(t) => Some(encode_utf8(t@)),
        ScriptArg::Boolean(b) => Some(
            if b {
                seq![49u8]
            } else {
                seq![48u8]
            },
        ),
        ScriptArg::Other => None,
    }
}

/// Every argument can be passed to a command.
pub open spec fn args_convert(args: Seq<ScriptArg>) -> bool {
    forall|i: int| 0 <= i < args.len() ==> #[trigger] script_arg_bytes(args[i]) is Some
}

/// The bytes of each argument.
pub open spec fn arg_bytes_seq(args: Seq<ScriptArg>) -> Seq<Seq<u8>> {
    args.map_values(|a: ScriptArg| script_arg_bytes(a).unwrap())
}

/// An error raised to the script when it asked for errors to be raised
/// (`redis.call`), else nil (`redis.pcall`).
pub open spec fn raised(throw_error: bool, msg: Seq<char>) -> Result<Option<Reply>, Seq<char>> {
    if throw_error {
        Err(msg)
    } else {
        Ok(None)
    }
}

/// The text of the error a failure is reported as.
pub open spec fn failure_text(f: Failure) -> Seq<char> {
    match f {
        Failure::Arity(name) => "Wrong number of arguments for '"@ + name + "' command"@,
        Failure::Invalid(msg) => "Invalid argument: "@ + msg,
        Failure::WrongType => "Wrong type: "@ + wrong_type_msg(),
        Failure::DbRange => "Storage error: "@ + db_range_msg(),
        Failure::NoSuchKey => "Key not found"@,
        Failure::Command(msg) => "Invalid command: "@ + msg,
        Failure::Storage(msg) => "Storage error: "@ + msg,
        Failure::Internal(msg) => "Internal error: "@ + msg,
        Failure::Rejected(msg) => "Invalid: "@ + msg,
    }
}

/// An error that a failure describes reads as the failure's text.
proof fn lemma_failure_text(e: AikvError, f: Failure)
    requires
        error_models(e, f),
    ensures
        error_text(e) == failure_text(f),
{
}

/// What a script's call of a command gives back, and the writes it leaves:
/// an argument of another kind, no command, or a command scripts cannot
/// call is raised (or nil); a failing command is raised as an execution
/// error (or nil); otherwise the command's answer.
pub open spec fn script_call_spec(w: WriteMap, d: DbView, args: Seq<ScriptArg>, throw_error: bool, now: u64) -> (
    Result<Option<Reply>, Seq<char>>,
    WriteMap,
) {
    if !args_convert(args) {
        (raised(throw_error, "Invalid argument type"@), w)
    } else if args.len() == 0 {
        (raised(throw_error, "No command specified"@), w)
    } else {
        let a = arg_bytes_seq(args);
        let name = option_of(a[0]);
        match call_step(w, d, name, a.subrange(1, a.len() as int), now) {
            None => (raised(throw_error, "Command not supported in scripts: "@ + name), w),
            Some(step) => match step.0 {
                Reply::Fail(f) => (raised(throw_error, "Command execution error: "@ + failure_text(f)), step.1),
                rep => (Ok(Some(rep)), step.1),
            },
        }
    }
}

/// `r` is the outcome that `o` describes.
pub open spec fn call_holds(o: Result<Option<Reply>, Seq<char>>, r: Result<Option<RespValue>, String>) -> bool {
    match o {
        Err(msg) => r matches Err(s) && s@ == msg,
        Ok(None) => r matches Ok(None),
        Ok(Some(rep)) => r matches Ok(Some(v)) && value_models(v, rep),
    }
}

fn raise(throw_error: bool, msg: String) -> (r: Result<Option<RespValue>, String>)
    ensures
        call_holds(raised(throw_error, msg@), r),
{
    if throw_error {
        Err(msg)
    } else {
        Ok(None)
    }
}

/// The bytes an argument is passed as (see `script_arg_bytes`).
fn arg_bytes(a: &ScriptArg) -> (r: Option<Vec<u8>>)
    ensures
        match script_arg_bytes(*a) {
            Some(b) => r matches Some(v) && v@ == b,
            None => r is None,
        },
{
    match a {
        ScriptArg::Bytes(b) => Some(copy_bytes(b)),
        ScriptArg::Integer(n) => Some(int_to_bytes(*n)),
        ScriptArg::Number(t) => Some(text_bytes(t.as_str())),
        ScriptArg::Boolean(b) => {
            let mut v: Vec<u8> = Vec::new();
            if *b {
                v.push(49u8);
            } else {
                v.push(48u8);
            }
            proof {
                assert(v@ =~= (if *b { seq![49u8] } else { seq![48u8] }));
            }
            Some(v)
        },
        ScriptArg::Other => None,
    }
}

/// The bytes of each argument, when every argument can be passed.
fn convert_args(args: &[ScriptArg]) -> (r: Option<Vec<Vec<u8>>>)
    ensures
        match r {
            Some(c) => args_convert(args@) && arg_views(c@) == arg_bytes_seq(args@),
            None => !args_convert(args@),
        },
{
    let mut cmd: Vec<Vec<u8>> = Vec::new();
    let mut i: usize = 0;
    while i < args.len()
        invariant
            i <= args@.len(),
            cmd@.len() == i,
            forall|j: int|
                0 <= j < i ==> #[trigger] script_arg_bytes(args@[j]) is Some && cmd@[j]@ == script_arg_bytes(
                    args@[j],
                ).unwrap(),
        decreases args@.len() - i,
    {
        match arg_bytes(&args[i]) {
            Some(b) => {
                cmd.push(b);
            },
            None => {
                return None;
            },
        }
        i = i + 1;
    }
    proof {
        assert(arg_views(cmd@) =~= arg_bytes_seq(args@));
    }
    Some(cmd)
}

/// A script's call of a command (`redis.call` when `throw_error`, else
/// `redis.pcall`) against its write buffer at time `now`: reads see the
/// buffer's pending writes, writes go to the buffer. `Ok(None)` is nil.
pub fn script_call(
    tx: &mut ScriptTransaction,
    storage: &StorageEngine,
    args: &[ScriptArg],
    throw_error: bool,
    now: u64,
) -> (r: Result<Option<RespValue>, String>)
    requires
        old(tx).wf(),
        storage.wf(),
        old(tx).db() < storage@.len(),
    ensures
        final(tx).wf(),
        final(tx).db() == old(tx).db(),
        call_holds(script_call_spec(old(tx)@, storage@[old(tx).db()], args@, throw_error, now).0, r),
        final(tx)@ == script_call_spec(old(tx)@, storage@[old(tx).db()], args@, throw_error, now).1,
{
    let mut cmd = match convert_args(args) {
        Some(c) => c,
        None => {
            return raise(throw_error, string_of("Invalid argument type"));
        },
    };
    let ghost a = arg_bytes_seq(args@);
    if cmd.len() == 0 {
        return raise(throw_error, string_of("No command specified"));
    }
    let name = arg_option(&cmd[0]);
    let _first = cmd.remove(0);
    proof {
        assert(arg_views(cmd@) =~= a.subrange(1, a.len() as int));
    }
    match run_command(tx, storage, name.as_str(), cmd.as_slice(), now) {
        None => {
            let mut msg = string_of("Command not supported in scripts: ");
            push_str(&mut msg, name.as_str());
            raise(throw_error, msg)
        },
        Some(Ok(v)) => Ok(Some(v)),
        Some(Err(e)) => {
            let ghost f = call_step(
                old(tx)@,
                storage@[old(tx).db()],
                name@,
                a.subrange(1, a.len() as int),
                now,
            ).unwrap().0->Fail_0;
            proof {
                lemma_failure_text(e, f);
            }
            let mut msg = string_of("Command execution error: ");
            let t = e.message();
            push_str(&mut msg, t.as_str());
            raise(throw_error, msg)
        },
    }
}

/// What `key` holds for a script when read as a hash.
pub open spec fn tx_hash(w: WriteMap, d: DbView, key: Seq<char>, now: u64) -> Typed<Seq<FieldPair>> {
    match tx_value(w, d, key, now) {
        None => Typed::Absent,
        Some(ValueView::Hash(h)) => Typed::Found(h),
        Some(_) => Typed::WrongType,
    }
}

/// A hash command that only reads: the arity check, then `answer` applied
/// to the hash `a[0]` names (empty when the key holds nothing).
pub open spec fn hash_read_step(
    w: WriteMap,
    d: DbView,
    a: Seq<Seq<u8>>,
    now: u64,
    name: Seq<char>,
    arity_ok: bool,
    answer: spec_fn(Seq<FieldPair>) -> Reply,
) -> (Reply, WriteMap) {
    if !arity_ok {
        (Reply::Fail(Failure::Arity(name)), w)
    } else {
        match tx_hash(w, d, key_of(a[0]), now) {
            Typed::WrongType => (Reply::Fail(Failure::WrongType), w),
            t => (answer(hash_or_empty(t)), w),
        }
    }
}

/// HSET (`ok_answer` false) and HMSET (`ok_answer` true) key field value
/// [field value ...]
pub open spec fn hset_step(w: WriteMap, d: DbView, a: Seq<Seq<u8>>, now: u64, ok_answer: bool) -> (Reply, WriteMap) {
    if a.len() < 3 || a.len() % 2 == 0 {
        (Reply::Fail(Failure::Arity(if ok_answer { "HMSET"@ } else { "HSET"@ })), w)
    } else {
        let key = key_of(a[0]);
        match tx_hash(w, d, key, now) {
            Typed::WrongType => (Reply::Fail(Failure::WrongType), w),
            t => {
                let r = hset_fold(hash_or_empty(t), a, ((a.len() - 1) / 2) as nat);
                (
                    if ok_answer {
                        ok_reply()
                    } else {
                        Reply::Int(r.1)
                    },
                    w.insert(key, Some(ValueView::Hash(r.0))),
                )
            },
        }
    }
}

/// HDEL key field [field ...]: a hash left empty is deleted.
pub open spec fn hdel_step(w: WriteMap, d: DbView, a: Seq<Seq<u8>>, now: u64) -> (Reply, WriteMap) {
    if a.len() < 2 {
        (Reply::Fail(Failure::Arity("HDEL"@)), w)
    } else {
        let key = key_of(a[0]);
        match tx_hash(w, d, key, now) {
            Typed::WrongType => (Reply::Fail(Failure::WrongType), w),
            Typed::Absent => (Reply::Int(0), w),
            Typed::Found(h) => {
                let r = hdel_fold(h, a, (a.len() - 1) as nat);
                (
                    Reply::Int(r.1),
                    if r.0.len() == 0 {
                        w.insert(key, None)
                    } else {
                        w.insert(key, Some(ValueView::Hash(r.0)))
                    },
                )
            },
        }
    }
}

/// HINCRBY key field increment
pub open spec fn hincrby_step(w: WriteMap, d: DbView, a: Seq<Seq<u8>>, now: u64) -> (Reply, WriteMap) {
    if a.len() != 3 {
        (Reply::Fail(Failure::Arity("HINCRBY"@)), w)
    } else {
        match int_arg(a[2]) {
            None => (Reply::Fail(Failure::Invalid("increment is not an integer"@)), w),
            Some(inc) => {
                let key = key_of(a[0]);
                let t = tx_hash(w, d, key, now);
                let h = hash_or_empty(t);
                let f = field_of(a[1]);
                if t is WrongType {
                    (Reply::Fail(Failure::WrongType), w)
                } else {
                    match (match hash_get(h, f) {
                        None => Some(0int),
                        Some(v) => int_arg(v),
                    }) {
                        None => (Reply::Fail(Failure::Invalid("field value is not an integer"@)), w),
                        Some(c) => if c + inc < i64::MIN || c + inc > i64::MAX {
                            (Reply::Fail(Failure::Invalid("ERR increment or decrement would overflow"@)), w)
                        } else {
                            (
                                Reply::Int(c + inc),
                                w.insert(key, Some(ValueView::Hash(hash_put(h, f, int_bytes(c + inc))))),
                            )
                        },
                    }
                }
            },
        }
    }
}

/// HGET key field
pub open spec fn hget_step(w: WriteMap, d: DbView, a: Seq<Seq<u8>>, now: u64) -> (Reply, WriteMap) {
    hash_read_step(w, d, a, now, "HGET"@, a.len() == 2, |h: Seq<FieldPair>| value_reply(hash_get(h, field_of(a[1]))))
}

/// HGETALL key
pub open spec fn hgetall_step(w: WriteMap, d: DbView, a: Seq<Seq<u8>>, now: u64) -> (Reply, WriteMap) {
    hash_read_step(w, d, a, now, "HGETALL"@, a.len() == 1, |h: Seq<FieldPair>| Reply::Array(flat_pairs(h)))
}

/// HMGET key field [field ...]
pub open spec fn hmget_step(w: WriteMap, d: DbView, a: Seq<Seq<u8>>, now: u64) -> (Reply, WriteMap) {
    hash_read_step(
        w,
        d,
        a,
        now,
        "HMGET"@,
        a.len() >= 2,
        |h: Seq<FieldPair>|
            Reply::Array(Seq::new((a.len() - 1) as nat, |i: int| value_reply(hash_get(h, field_of(a[i + 1]))))),
    )
}

/// HEXISTS key field
pub open spec fn hexists_step(w: WriteMap, d: DbView, a: Seq<Seq<u8>>, now: u64) -> (Reply, WriteMap) {
    hash_read_step(
        w,
        d,
        a,
        now,
        "HEXISTS"@,
        a.len() == 2,
        |h: Seq<FieldPair>| Reply::Int(if hash_get(h, field_of(a[1])) is Some { 1 } else { 0 }),
    )
}

/// HLEN key
pub open spec fn hlen_step(w: WriteMap, d: DbView, a: Seq<Seq<u8>>, now: u64) -> (Reply, WriteMap) {
    hash_read_step(w, d, a, now, "HLEN"@, a.len() == 1, |h: Seq<FieldPair>| Reply::Int(h.len() as int))
}

/// The hash commands scripts call: HGET, HSET, HMSET, HDEL, HGETALL, HMGET,
/// HINCRBY, HEXISTS, HLEN.
pub open spec fn hash_call_step(w: WriteMap, d: DbView, name: Seq<char>, a: Seq<Seq<u8>>, now: u64) -> Option<
    (Reply, WriteMap),
> {
    if name == "HGET"@ {
        Some(hget_step(w, d, a, now))
    } else if name == "HSET"@ {
        Some(hset_step(w, d, a, now, false))
    } else if name == "HMSET"@ {
        Some(hset_step(w, d, a, now, true))
    } else if name == "HDEL"@ {
        Some(hdel_step(w, d, a, now))
    } else if name == "HGETALL"@ {
        Some(hgetall_step(w, d, a, now))
    } else if name == "HMGET"@ {
        Some(hmget_step(w, d, a, now))
    } else if name == "HINCRBY"@ {
        Some(hincrby_step(w, d, a, now))
    } else if name == "HEXISTS"@ {
        Some(hexists_step(w, d, a, now))
    } else if name == "HLEN"@ {
        Some(hlen_step(w, d, a, now))
    } else {
        set_call_step(w, d, name, a, now)
    }
}

impl ScriptTransaction {
    /// The hash `key` holds for the script (empty when it holds nothing);
    /// an error when it holds a value of another kind.
    fn load_hash(&self, storage: &StorageEngine, key: &str, now: u64) -> (r: Result<Vec<(Vec<u8>, Vec<u8>)>, AikvError>)
        requires
            self.wf(),
            storage.wf(),
            self.db() < storage@.len(),
        ensures
            ({
                let t = tx_hash(self@, storage@[self.db()], key@, now);
                if t is WrongType {
                    r matches Err(e) && error_models(e, Failure::WrongType)
                } else {
                    r matches Ok(h) && pair_views(h@) == hash_or_empty(t)
                }
            }),
    {
        match self.get_value(storage, key, now) {
            Some(StoredValue::Hash(h)) => Ok(h),
            None => {
                let h: Vec<(Vec<u8>, Vec<u8>)> = Vec::new();
                proof {
                    assert(pair_views(h@) =~= Seq::<FieldPair>::empty());
                }
                Ok(h)
            },
            Some(_) => Err(wrong_type_error()),
        }
    }
}

fn call_hget(tx: &ScriptTransaction, storage: &StorageEngine, a: &[Vec<u8>], now: u64) -> (r: Result<RespValue, AikvError>)
    requires
        tx.wf(),
        storage.wf(),
        tx.db() < storage@.len(),
    ensures
        models(r, hget_step(tx@, storage@[tx.db()], arg_views(a@), now).0),
{
    proof {
        lemma_arg_views(a@);
    }
    if a.len() != 2 {
        return Err(arity_error("HGET"));
    }
    let key = arg_text(&a[0]);
    let h = match tx.load_hash(storage, key.as_str(), now) {
        Ok(h) => h,
        Err(e) => {
            return Err(e);
        },
    };
    let text = arg_text(&a[1]);
    let f = text_bytes(text.as_str());
    let p = find_field(&h, &f);
    if p < h.len() {
        Ok(value_answer(Some(&h[p].1)))
    } else {
        Ok(value_answer(None))
    }
}

fn call_hset(tx: &mut ScriptTransaction, storage: &StorageEngine, a: &[Vec<u8>], now: u64, ok_answer: bool) -> (r: Result<
    RespValue,
    AikvError,
>)
    requires
        old(tx).wf(),
        storage.wf(),
        old(tx).db() < storage@.len(),
    ensures
        final(tx).wf(),
        final(tx).db() == old(tx).db(),
        step_holds(hset_step(old(tx)@, storage@[old(tx).db()], arg_views(a@), now, ok_answer), r, final(tx)@),
{
    proof {
        lemma_arg_views(a@);
    }
    if a.len() < 3 || a.len() % 2 == 0 {
        return Err(arity_error(
            if ok_answer {
                "HMSET"
            } else {
                "HSET"
            },
        ));
    }
    let ghost av = arg_views(a@);
    let key = arg_text(&a[0]);
    let mut h = match tx.load_hash(storage, key.as_str(), now) {
        Ok(h) => h,
        Err(e) => {
            return Err(e);
        },
    };
    let ghost h0 = pair_views(h@);
    let n = (a.len() - 1) / 2;
    let mut count: usize = 0;
    let mut k: usize = 0;
    while k < n
        invariant
            k <= n,
            n == (a@.len() - 1) / 2,
            a@.len() >= 3,
            a@.len() == a.len(),
            a@.len() % 2 == 1,
            av == arg_views(a@),
            av.len() == a@.len(),
            forall|i: int| 0 <= i < a@.len() ==> #[trigger] av[i] == a@[i]@,
            (pair_views(h@), count as int) == hset_fold(h0, av, k as nat),
            count <= k,
        decreases n - k,
    {
        proof {
            lemma_pair_index(k as int, n as int, a@.len() as int);
        }
        let text = arg_text(&a[2 * k + 1]);
        let f = text_bytes(text.as_str());
        let v = copy_bytes(&a[2 * k + 2]);
        let fresh = put_field(&mut h, f, v);
        if fresh {
            count = count + 1;
        }
        k = k + 1;
        proof {
            assert(2 * (k as int) - 1 == 2 * (k - 1) + 1);
        }
    }
    tx.put(key, Some(StoredValue::Hash(h)));
    if ok_answer {
        Ok(RespValue::SimpleString(string_of("OK")))
    } else {
        Ok(RespValue::Integer(count as i64))
    }
}

fn call_hdel(tx: &mut ScriptTransaction, storage: &StorageEngine, a: &[Vec<u8>], now: u64) -> (r: Result<RespValue, AikvError>)
    requires
        old(tx).wf(),
        storage.wf(),
        old(tx).db() < storage@.len(),
    ensures
        final(tx).wf(),
        final(tx).db() == old(tx).db(),
        step_holds(hdel_step(old(tx)@, storage@[old(tx).db()], arg_views(a@), now), r, final(tx)@),
{
    proof {
        lemma_arg_views(a@);
    }
    if a.len() < 2 {
        return Err(arity_error("HDEL"));
    }
    let key = arg_text(&a[0]);
    let mut h = match tx.get_value(storage, key.as_str(), now) {
        Some(StoredValue::Hash(h)) => h,
        None => {
            return Ok(RespValue::Integer(0));
        },
        Some(_) => {
            return Err(wrong_type_error());
        },
    };
    let ghost av = arg_views(a@);
    let ghost h0 = pair_views(h@);
    let mut count: usize = 0;
    let mut i: usize = 1;
    while i < a.len()
        invariant
            1 <= i <= a@.len(),
            a@.len() == a.len(),
            av == arg_views(a@),
            av.len() == a@.len(),
            forall|j: int| 0 <= j < a@.len() ==> #[trigger] av[j] == a@[j]@,
            (pair_views(h@), count as int) == hdel_fold(h0, av, (i - 1) as nat),
            count < i,
        decreases a.len() - i,
    {
        let text = arg_text(&a[i]);
        let f = text_bytes(text.as_str());
        if remove_field(&mut h, &f) {
            count = count + 1;
        }
        i = i + 1;
    }
    if h.len() == 0 {
        tx.put(key, None);
    } else {
        tx.put(key, Some(StoredValue::Hash(h)));
    }
    Ok(RespValue::Integer(count as i64))
}

fn call_hgetall(tx: &ScriptTransaction, storage: &StorageEngine, a: &[Vec<u8>], now: u64) -> (r: Result<RespValue, AikvError>)
    requires
        tx.wf(),
        storage.wf(),
        tx.db() < storage@.len(),
    ensures
        models(r, hgetall_step(tx@, storage@[tx.db()], arg_views(a@), now).0),
{
    proof {
        lemma_arg_views(a@);
    }
    if a.len() != 1 {
        return Err(arity_error("HGETALL"));
    }
    let key = arg_text(&a[0]);
    match tx.load_hash(storage, key.as_str(), now) {
        Ok(h) => Ok(HashCommands::listing(&h, 2)),
        Err(e) => Err(e),
    }
}

fn call_hmget(tx: &ScriptTransaction, storage: &StorageEngine, a: &[Vec<u8>], now: u64) -> (r: Result<RespValue, AikvError>)
    requires
        tx.wf(),
        storage.wf(),
        tx.db() < storage@.len(),
    ensures
        models(r, hmget_step(tx@, storage@[tx.db()], arg_views(a@), now).0),
{
    proof {
        lemma_arg_views(a@);
    }
    if a.len() < 2 {
        return Err(arity_error("HMGET"));
    }
    let key = arg_text(&a[0]);
    let h = match tx.load_hash(storage, key.as_str(), now) {
        Ok(h) => h,
        Err(e) => {
            return Err(e);
        },
    };
    let ghost av = arg_views(a@);
    let ghost hv = pair_views(h@);
    let ghost want = Seq::new((av.len() - 1) as nat, |i: int| value_reply(hash_get(hv, field_of(av[i + 1]))));
    let mut items: Vec<RespValue> = Vec::new();
    let mut i: usize = 1;
    while i < a.len()
        invariant
            1 <= i <= a@.len(),
            a@.len() == a.len(),
            av == arg_views(a@),
            av.len() == a@.len(),
            forall|j: int| 0 <= j < a@.len() ==> #[trigger] av[j] == a@[j]@,
            hv == pair_views(h@),
            want == Seq::new((av.len() - 1) as nat, |j: int| value_reply(hash_get(hv, field_of(av[j + 1])))),
            items@.len() == i - 1,
            forall|j: int| 0 <= j < i - 1 ==> value_models(#[trigger] items@[j], want[j]),
        decreases a.len() - i,
    {
        let text = arg_text(&a[i]);
        let f = text_bytes(text.as_str());
        let p = find_field(&h, &f);
        let item = if p < h.len() {
            value_answer(Some(&h[p].1))
        } else {
            value_answer(None)
        };
        items.push(item);
        i = i + 1;
    }
    Ok(RespValue::Array(Some(items)))
}

fn call_hincrby(tx: &mut ScriptTransaction, storage: &StorageEngine, a: &[Vec<u8>], now: u64) -> (r: Result<RespValue, AikvError>)
    requires
        old(tx).wf(),
        storage.wf(),
        old(tx).db() < storage@.len(),
    ensures
        final(tx).wf(),
        final(tx).db() == old(tx).db(),
        step_holds(hincrby_step(old(tx)@, storage@[old(tx).db()], arg_views(a@), now), r, final(tx)@),
{
    proof {
        lemma_arg_views(a@);
    }
    if a.len() != 3 {
        return Err(arity_error("HINCRBY"));
    }
    let inc = match arg_i64(&a[2]) {
        Some(v) => v,
        None => {
            return Err(invalid_error("increment is not an integer"));
        },
    };
    let key = arg_text(&a[0]);
    let mut h = match tx.load_hash(storage, key.as_str(), now) {
        Ok(h) => h,
        Err(e) => {
            return Err(e);
        },
    };
    let text = arg_text(&a[1]);
    let f = text_bytes(text.as_str());
    let p = find_field(&h, &f);
    let cur: i64 = if p < h.len() {
        match arg_i64(&h[p].1) {
            Some(c) => c,
            None => {
                return Err(invalid_error("field value is not an integer"));
            },
        }
    } else {
        0
    };
    let next = match cur.checked_add(inc) {
        Some(n) => n,
        None => {
            return Err(invalid_error("ERR increment or decrement would overflow"));
        },
    };
    put_field(&mut h, f, int_to_bytes(next));
    tx.put(key, Some(StoredValue::Hash(h)));
    Ok(RespValue::Integer(next))
}

fn call_hexists(tx: &ScriptTransaction, storage: &StorageEngine, a: &[Vec<u8>], now: u64) -> (r: Result<RespValue, AikvError>)
    requires
        tx.wf(),
        storage.wf(),
        tx.db() < storage@.len(),
    ensures
        models(r, hexists_step(tx@, storage@[tx.db()], arg_views(a@), now).0),
{
    proof {
        lemma_arg_views(a@);
    }
    if a.len() != 2 {
        return Err(arity_error("HEXISTS"));
    }
    let key = arg_text(&a[0]);
    let h = match tx.load_hash(storage, key.as_str(), now) {
        Ok(h) => h,
        Err(e) => {
            return Err(e);
        },
    };
    let text = arg_text(&a[1]);
    let f = text_bytes(text.as_str());
    let p = find_field(&h, &f);
    Ok(RespValue::Integer(if p < h.len() { 1 } else { 0 }))
}

fn call_hlen(tx: &ScriptTransaction, storage: &StorageEngine, a: &[Vec<u8>], now: u64) -> (r: Result<RespValue, AikvError>)
    requires
        tx.wf(),
        storage.wf(),
        tx.db() < storage@.len(),
    ensures
        models(r, hlen_step(tx@, storage@[tx.db()], arg_views(a@), now).0),
{
    proof {
        lemma_arg_views(a@);
    }
    if a.len() != 1 {
        return Err(arity_error("HLEN"));
    }
    let key = arg_text(&a[0]);
    match tx.load_hash(storage, key.as_str(), now) {
        Ok(h) => Ok(RespValue::Integer(h.len() as i64)),
        Err(e) => Err(e),
    }
}

/// Runs the hash command `name` for a script; `None` when it is not one.
fn run_hash_command(tx: &mut ScriptTransaction, storage: &StorageEngine, name: &str, a: &[Vec<u8>], now: u64) -> (r: Option<
    Result<RespValue, AikvError>,
>)
    requires
        old(tx).wf(),
        storage.wf(),
        old(tx).db() < storage@.len(),
    ensures
        final(tx).wf(),
        final(tx).db() == old(tx).db(),
        match hash_call_step(old(tx)@, storage@[old(tx).db()], name@, arg_views(a@), now) {
            None => r is None && final(tx)@ == old(tx)@,
            Some(step) => r matches Some(x) && step_holds(step, x, final(tx)@),
        },
{
    if str_eq(name, "HGET") {
        Some(call_hget(tx, storage, a, now))
    } else if str_eq(name, "HSET") {
        Some(call_hset(tx, storage, a, now, false))
    } else if str_eq(name, "HMSET") {
        Some(call_hset(tx, storage, a, now, true))
    } else if str_eq(name, "HDEL") {
        Some(call_hdel(tx, storage, a, now))
    } else if str_eq(name, "HGETALL") {
        Some(call_hgetall(tx, storage, a, now))
    } else if str_eq(name, "HMGET") {
        Some(call_hmget(tx, storage, a, now))
    } else if str_eq(name, "HINCRBY") {
        Some(call_hincrby(tx, storage, a, now))
    } else if str_eq(name, "HEXISTS") {
        Some(call_hexists(tx, storage, a, now))
    } else if str_eq(name, "HLEN") {
        Some(call_hlen(tx, storage, a, now))
    } else {
        run_set_command(tx, storage, name, a, now)
    }
}

/// What `key` holds for a script when read as a set.
pub open spec fn tx_set(w: WriteMap, d: DbView, key: Seq<char>, now: u64) -> Typed<Seq<Seq<u8>>> {
    match tx_value(w, d, key, now) {
        None => Typed::Absent,
        Some(ValueView::SetMembers(m)) => Typed::Found(m),
        Some(_) => Typed::WrongType,
    }
}

/// A set command that only reads: the arity check, then `answer` applied to
/// the set `a[0]` names (empty when the key holds nothing).
pub open spec fn set_read_step(
    w: WriteMap,
    d: DbView,
    a: Seq<Seq<u8>>,
    now: u64,
    name: Seq<char>,
    arity_ok: bool,
    answer: spec_fn(Seq<Seq<u8>>) -> Reply,
) -> (Reply, WriteMap) {
    if !arity_ok {
        (Reply::Fail(Failure::Arity(name)), w)
    } else {
        match tx_set(w, d, key_of(a[0]), now) {
            Typed::WrongType => (Reply::Fail(Failure::WrongType), w),
            t => (answer(set_or_empty(t)), w),
        }
    }
}

/// SADD key member [member ...]
pub open spec fn sadd_step(w: WriteMap, d: DbView, a: Seq<Seq<u8>>, now: u64) -> (Reply, WriteMap) {
    if a.len() < 2 {
        (Reply::Fail(Failure::Arity("SADD"@)), w)
    } else {
        let key = key_of(a[0]);
        match tx_set(w, d, key, now) {
            Typed::WrongType => (Reply::Fail(Failure::WrongType), w),
            t => {
                let r = sadd_fold(set_or_empty(t), a, (a.len() - 1) as nat);
                (Reply::Int(r.1), w.insert(key, Some(ValueView::SetMembers(r.0))))
            },
        }
    }
}

/// SREM key member [member ...]: a set left empty is deleted.
pub open spec fn srem_step(w: WriteMap, d: DbView, a: Seq<Seq<u8>>, now: u64) -> (Reply, WriteMap) {
    if a.len() < 2 {
        (Reply::Fail(Failure::Arity("SREM"@)), w)
    } else {
        let key = key_of(a[0]);
        match tx_set(w, d, key, now) {
            Typed::WrongType => (Reply::Fail(Failure::WrongType), w),
            Typed::Absent => (Reply::Int(0), w),
            Typed::Found(m) => {
                let r = srem_fold(m, a, (a.len() - 1) as nat);
                (
                    Reply::Int(r.1),
                    if r.0.len() == 0 {
                        w.insert(key, None)
                    } else {
                        w.insert(key, Some(ValueView::SetMembers(r.0)))
                    },
                )
            },
        }
    }
}

/// SMEMBERS key
pub open spec fn smembers_step(w: WriteMap, d: DbView, a: Seq<Seq<u8>>, now: u64) -> (Reply, WriteMap) {
    set_read_step(w, d, a, now, "SMEMBERS"@, a.len() == 1, |m: Seq<Seq<u8>>| Reply::Array(bulks(m)))
}

/// SISMEMBER key member
pub open spec fn sismember_step(w: WriteMap, d: DbView, a: Seq<Seq<u8>>, now: u64) -> (Reply, WriteMap) {
    set_read_step(
        w,
        d,
        a,
        now,
        "SISMEMBER"@,
        a.len() == 2,
        |m: Seq<Seq<u8>>| Reply::Int(if m.contains(a[1]) { 1 } else { 0 }),
    )
}

/// SCARD key
pub open spec fn scard_step(w: WriteMap, d: DbView, a: Seq<Seq<u8>>, now: u64) -> (Reply, WriteMap) {
    set_read_step(w, d, a, now, "SCARD"@, a.len() == 1, |m: Seq<Seq<u8>>| Reply::Int(m.len() as int))
}

/// The set commands scripts call: SADD, SREM, SMEMBERS, SISMEMBER, SCARD.
pub open spec fn set_call_step(w: WriteMap, d: DbView, name: Seq<char>, a: Seq<Seq<u8>>, now: u64) -> Option<
    (Reply, WriteMap),
> {
    if name == "SADD"@ {
        Some(sadd_step(w, d, a, now))
    } else if name == "SREM"@ {
        Some(srem_step(w, d, a, now))
    } else if name == "SMEMBERS"@ {
        Some(smembers_step(w, d, a, now))
    } else if name == "SISMEMBER"@ {
        Some(sismember_step(w, d, a, now))
    } else if name == "SCARD"@ {
        Some(scard_step(w, d, a, now))
    } else {
        list_call_step(w, d, name, a, now)
    }
}

impl ScriptTransaction {
    /// The set `key` holds for the script (empty when it holds nothing);
    /// an error when it holds a value of another kind.
    fn load_set(&self, storage: &StorageEngine, key: &str, now: u64) -> (r: Result<Vec<Vec<u8>>, AikvError>)
        requires
            self.wf(),
            storage.wf(),
            self.db() < storage@.len(),
        ensures
            ({
                let t = tx_set(self@, storage@[self.db()], key@, now);
                if t is WrongType {
                    r matches Err(e) && error_models(e, Failure::WrongType)
                } else {
                    r matches Ok(m) && bytes_views(m@) == set_or_empty(t)
                }
            }),
    {
        match self.get_value(storage, key, now) {
            Some(StoredValue::SetMembers(m)) => Ok(m),
            None => {
                let m: Vec<Vec<u8>> = Vec::new();
                proof {
                    assert(bytes_views(m@) =~= Seq::<Seq<u8>>::empty());
                }
                Ok(m)
            },
            Some(_) => Err(wrong_type_error()),
        }
    }
}

fn call_sadd(tx: &mut ScriptTransaction, storage: &StorageEngine, a: &[Vec<u8>], now: u64) -> (r: Result<RespValue, AikvError>)
    requires
        old(tx).wf(),
        storage.wf(),
        old(tx).db() < storage@.len(),
    ensures
        final(tx).wf(),
        final(tx).db() == old(tx).db(),
        step_holds(sadd_step(old(tx)@, storage@[old(tx).db()], arg_views(a@), now), r, final(tx)@),
{
    proof {
        lemma_arg_views(a@);
    }
    if a.len() < 2 {
        return Err(arity_error("SADD"));
    }
    let key = arg_text(&a[0]);
    let mut set = match tx.load_set(storage, key.as_str(), now) {
        Ok(m) => m,
        Err(e) => {
            return Err(e);
        },
    };
    let ghost av = arg_views(a@);
    let ghost s0 = bytes_views(set@);
    let mut count: usize = 0;
    let mut i: usize = 1;
    while i < a.len()
        invariant
            1 <= i <= a@.len(),
            a@.len() == a.len(),
            av == arg_views(a@),
            av.len() == a@.len(),
            forall|j: int| 0 <= j < a@.len() ==> #[trigger] av[j] == a@[j]@,
            (bytes_views(set@), count as int) == sadd_fold(s0, av, (i - 1) as nat),
            count < i,
        decreases a.len() - i,
    {
        if add_member(&mut set, &a[i]) {
            count = count + 1;
        }
        i = i + 1;
    }
    tx.put(key, Some(StoredValue::SetMembers(set)));
    Ok(RespValue::Integer(count as i64))
}

fn call_srem(tx: &mut ScriptTransaction, storage: &StorageEngine, a: &[Vec<u8>], now: u64) -> (r: Result<RespValue, AikvError>)
    requires
        old(tx).wf(),
        storage.wf(),
        old(tx).db() < storage@.len(),
    ensures
        final(tx).wf(),
        final(tx).db() == old(tx).db(),
        step_holds(srem_step(old(tx)@, storage@[old(tx).db()], arg_views(a@), now), r, final(tx)@),
{
    proof {
        lemma_arg_views(a@);
    }
    if a.len() < 2 {
        return Err(arity_error("SREM"));
    }
    let key = arg_text(&a[0]);
    let mut set = match tx.get_value(storage, key.as_str(), now) {
        Some(StoredValue::SetMembers(m)) => m,
        None => {
            return Ok(RespValue::Integer(0));
        },
        Some(_) => {
            return Err(wrong_type_error());
        },
    };
    let ghost av = arg_views(a@);
    let ghost s0 = bytes_views(set@);
    let mut count: usize = 0;
    let mut i: usize = 1;
    while i < a.len()
        invariant
            1 <= i <= a@.len(),
            a@.len() == a.len(),
            av == arg_views(a@),
            av.len() == a@.len(),
            forall|j: int| 0 <= j < a@.len() ==> #[trigger] av[j] == a@[j]@,
            (bytes_views(set@), count as int) == srem_fold(s0, av, (i - 1) as nat),
            count < i,
        decreases a.len() - i,
    {
        if has_member(&set, &a[i]) {
            set = remove_member(&set, &a[i]);
            count = count + 1;
        }
        i = i + 1;
    }
    if set.len() == 0 {
        tx.put(key, None);
    } else {
        tx.put(key, Some(StoredValue::SetMembers(set)));
    }
    Ok(RespValue::Integer(count as i64))
}

fn call_smembers(tx: &ScriptTransaction, storage: &StorageEngine, a: &[Vec<u8>], now: u64) -> (r: Result<RespValue, AikvError>)
    requires
        tx.wf(),
        storage.wf(),
        tx.db() < storage@.len(),
    ensures
        models(r, smembers_step(tx@, storage@[tx.db()], arg_views(a@), now).0),
{
    proof {
        lemma_arg_views(a@);
    }
    if a.len() != 1 {
        return Err(arity_error("SMEMBERS"));
    }
    let key = arg_text(&a[0]);
    match tx.load_set(storage, key.as_str(), now) {
        Ok(m) => Ok(bulk_list(&m)),
        Err(e) => Err(e),
    }
}

fn call_sismember(tx: &ScriptTransaction, storage: &StorageEngine, a: &[Vec<u8>], now: u64) -> (r: Result<RespValue, AikvError>)
    requires
        tx.wf(),
        storage.wf(),
        tx.db() < storage@.len(),
    ensures
        models(r, sismember_step(tx@, storage@[tx.db()], arg_views(a@), now).0),
{
    proof {
        lemma_arg_views(a@);
    }
    if a.len() != 2 {
        return Err(arity_error("SISMEMBER"));
    }
    let key = arg_text(&a[0]);
    match tx.load_set(storage, key.as_str(), now) {
        Ok(m) => Ok(RespValue::Integer(if has_member(&m, &a[1]) { 1 } else { 0 })),
        Err(e) => Err(e),
    }
}

fn call_scard(tx: &ScriptTransaction, storage: &StorageEngine, a: &[Vec<u8>], now: u64) -> (r: Result<RespValue, AikvError>)
    requires
        tx.wf(),
        storage.wf(),
        tx.db() < storage@.len(),
    ensures
        models(r, scard_step(tx@, storage@[tx.db()], arg_views(a@), now).0),
{
    proof {
        lemma_arg_views(a@);
    }
    if a.len() != 1 {
        return Err(arity_error("SCARD"));
    }
    let key = arg_text(&a[0]);
    match tx.load_set(storage, key.as_str(), now) {
        Ok(m) => Ok(RespValue::Integer(m.len() as i64)),
        Err(e) => Err(e),
    }
}

/// Runs the set command `name` for a script; `None` when it is not one.
fn run_set_command(tx: &mut ScriptTransaction, storage: &StorageEngine, name: &str, a: &[Vec<u8>], now: u64) -> (r: Option<
    Result<RespValue, AikvError>,
>)
    requires
        old(tx).wf(),
        storage.wf(),
        old(tx).db() < storage@.len(),
    ensures
        final(tx).wf(),
        final(tx).db() == old(tx).db(),
        match set_call_step(old(tx)@, storage@[old(tx).db()], name@, arg_views(a@), now) {
            None => r is None && final(tx)@ == old(tx)@,
            Some(step) => r matches Some(x) && step_holds(step, x, final(tx)@),
        },
{
    if str_eq(name, "SADD") {
        Some(call_sadd(tx, storage, a, now))
    } else if str_eq(name, "SREM") {
        Some(call_srem(tx, storage, a, now))
    } else if str_eq(name, "SMEMBERS") {
        Some(call_smembers(tx, storage, a, now))
    } else if str_eq(name, "SISMEMBER") {
        Some(call_sismember(tx, storage, a, now))
    } else if str_eq(name, "SCARD") {
        Some(call_scard(tx, storage, a, now))
    } else {
        run_list_command(tx, storage, name, a, now)
    }
}

/// What `key` holds for a script when read as a list.
pub open spec fn tx_list(w: WriteMap, d: DbView, key: Seq<char>, now: u64) -> Typed<Seq<Seq<u8>>> {
    match tx_value(w, d, key, now) {
        None => Typed::Absent,
        Some(ValueView::List(l)) => Typed::Found(l),
        Some(_) => Typed::WrongType,
    }
}

/// The writes after a list is stored back under `key`: deleted when empty.
pub open spec fn store_list_write(w: WriteMap, key: Seq<char>, l: Seq<Seq<u8>>) -> WriteMap {
    if l.len() == 0 {
        w.insert(key, None)
    } else {
        w.insert(key, Some(ValueView::List(l)))
    }
}

/// LPUSH (`left`) and RPUSH key element [element ...]: the elements, in the
/// order given, go before the head or after the tail.
pub open spec fn push_step(w: WriteMap, d: DbView, a: Seq<Seq<u8>>, now: u64, left: bool) -> (Reply, WriteMap) {
    if a.len() < 2 {
        (Reply::Fail(Failure::Arity(if left { "LPUSH"@ } else { "RPUSH"@ })), w)
    } else {
        let key = key_of(a[0]);
        match tx_list(w, d, key, now) {
            Typed::WrongType => (Reply::Fail(Failure::WrongType), w),
            t => {
                let l = list_or_empty(t);
                let e = a.subrange(1, a.len() as int);
                let n = if left {
                    e + l
                } else {
                    l + e
                };
                (Reply::Int(n.len() as int), w.insert(key, Some(ValueView::List(n))))
            },
        }
    }
}

/// LPOP (`left`) and RPOP key [count]: with no count, the end element; with
/// a count (1 when it does not read as a number), up to that many, nearest
/// the end first. A list left empty is deleted.
pub open spec fn pop_step(w: WriteMap, d: DbView, a: Seq<Seq<u8>>, now: u64, left: bool) -> (Reply, WriteMap) {
    if a.len() == 0 {
        (Reply::Fail(Failure::Arity(if left { "LPOP"@ } else { "RPOP"@ })), w)
    } else {
        let c: nat = if a.len() > 1 {
            match usize_arg(a[1]) {
                Some(n) => n,
                None => 1,
            }
        } else {
            1
        };
        let key = key_of(a[0]);
        match tx_list(w, d, key, now) {
            Typed::WrongType => (Reply::Fail(Failure::WrongType), w),
            Typed::Absent => (Reply::Nil, w),
            Typed::Found(l) => {
                let single = c == 1 && a.len() == 1;
                let k = min_int(c as int, l.len() as int);
                let vals = if left {
                    l.take(k)
                } else {
                    l.skip(l.len() - k).reverse()
                };
                let rest = if left {
                    l.skip(k)
                } else {
                    l.take(l.len() - k)
                };
                if single && k == 0 {
                    (Reply::Nil, w)
                } else {
                    (
                        if k == 0 {
                            Reply::Nil
                        } else if single {
                            Reply::Bulk(vals[0])
                        } else {
                            Reply::Array(bulks(vals))
                        },
                        store_list_write(w, key, rest),
                    )
                }
            },
        }
    }
}

/// LLEN key
pub open spec fn llen_step(w: WriteMap, d: DbView, a: Seq<Seq<u8>>, now: u64) -> (Reply, WriteMap) {
    if a.len() != 1 {
        (Reply::Fail(Failure::Arity("LLEN"@)), w)
    } else {
        match tx_list(w, d, key_of(a[0]), now) {
            Typed::WrongType => (Reply::Fail(Failure::WrongType), w),
            t => (Reply::Int(list_or_empty(t).len() as int), w),
        }
    }
}

/// The positions `[from, to)` that LRANGE's `start` and `stop` select in a
/// list of `len` elements.
pub open spec fn script_range(len: int, start: int, stop: int) -> (int, int) {
    let s = if start < 0 {
        max_int(len + start, 0)
    } else {
        min_int(start, len)
    };
    let e = if stop < 0 {
        max_int(len + stop + 1, 0)
    } else {
        min_int(stop + 1, len)
    };
    if s >= e {
        (0, 0)
    } else {
        (s, e)
    }
}

/// LRANGE key start stop
pub open spec fn lrange_step(w: WriteMap, d: DbView, a: Seq<Seq<u8>>, now: u64) -> (Reply, WriteMap) {
    if a.len() != 3 {
        (Reply::Fail(Failure::Arity("LRANGE"@)), w)
    } else {
        match (int_arg(a[1]), int_arg(a[2])) {
            (None, _) => (Reply::Fail(Failure::Invalid("start is not an integer"@)), w),
            (Some(_), None) => (Reply::Fail(Failure::Invalid("stop is not an integer"@)), w),
            (Some(start), Some(stop)) => match tx_list(w, d, key_of(a[0]), now) {
                Typed::WrongType => (Reply::Fail(Failure::WrongType), w),
                t => {
                    let l = list_or_empty(t);
                    let b = script_range(l.len() as int, start, stop);
                    (Reply::Array(bulks(l.subrange(b.0, b.1))), w)
                },
            },
        }
    }
}

/// LINDEX key index
pub open spec fn lindex_step(w: WriteMap, d: DbView, a: Seq<Seq<u8>>, now: u64) -> (Reply, WriteMap) {
    if a.len() != 2 {
        (Reply::Fail(Failure::Arity("LINDEX"@)), w)
    } else {
        match int_arg(a[1]) {
            None => (Reply::Fail(Failure::Invalid("index is not an integer"@)), w),
            Some(index) => match tx_list(w, d, key_of(a[0]), now) {
                Typed::WrongType => (Reply::Fail(Failure::WrongType), w),
                t => {
                    let l = list_or_empty(t);
                    let p = list_pos(l.len() as int, index);
                    (
                        if 0 <= p < l.len() {
                            Reply::Bulk(l[p])
                        } else {
                            Reply::Nil
                        },
                        w,
                    )
                },
            },
        }
    }
}

/// The list commands scripts call: LPUSH, RPUSH, LPOP, RPOP, LLEN, LRANGE,
/// LINDEX.
pub open spec fn list_call_step(w: WriteMap, d: DbView, name: Seq<char>, a: Seq<Seq<u8>>, now: u64) -> Option<
    (Reply, WriteMap),
> {
    if name == "LPUSH"@ {
        Some(push_step(w, d, a, now, true))
    } else if name == "RPUSH"@ {
        Some(push_step(w, d, a, now, false))
    } else if name == "LPOP"@ {
        Some(pop_step(w, d, a, now, true))
    } else if name == "RPOP"@ {
        Some(pop_step(w, d, a, now, false))
    } else if name == "LLEN"@ {
        Some(llen_step(w, d, a, now))
    } else if name == "LRANGE"@ {
        Some(lrange_step(w, d, a, now))
    } else if name == "LINDEX"@ {
        Some(lindex_step(w, d, a, now))
    } else {
        None
    }
}

impl ScriptTransaction {
    /// The list `key` holds for the script (empty when it holds nothing);
    /// an error when it holds a value of another kind.
    fn load_list(&self, storage: &StorageEngine, key: &str, now: u64) -> (r: Result<Vec<Vec<u8>>, AikvError>)
        requires
            self.wf(),
            storage.wf(),
            self.db() < storage@.len(),
        ensures
            ({
                let t = tx_list(self@, storage@[self.db()], key@, now);
                if t is WrongType {
                    r matches Err(e) && error_models(e, Failure::WrongType)
                } else {
                    r matches Ok(l) && bytes_views(l@) == list_or_empty(t)
                }
            }),
    {
        match self.get_value(storage, key, now) {
            Some(StoredValue::List(l)) => Ok(l),
            None => {
                let l: Vec<Vec<u8>> = Vec::new();
                proof {
                    assert(bytes_views(l@) =~= Seq::<Seq<u8>>::empty());
                }
                Ok(l)
            },
            Some(_) => Err(wrong_type_error()),
        }
    }

    /// Stores the list `l` under `key`; deletes the key when `l` is empty.
    fn store_list(&mut self, key: String, l: Vec<Vec<u8>>)
        requires
            old(self).wf(),
        ensures
            final(self).wf(),
            final(self).db() == old(self).db(),
            final(self)@ == store_list_write(old(self)@, key@, bytes_views(l@)),
    {
        if l.len() == 0 {
            self.put(key, None);
        } else {
            self.put(key, Some(StoredValue::List(l)));
        }
    }
}

fn call_push(tx: &mut ScriptTransaction, storage: &StorageEngine, a: &[Vec<u8>], now: u64, left: bool) -> (r: Result<
    RespValue,
    AikvError,
>)
    requires
        old(tx).wf(),
        storage.wf(),
        old(tx).db() < storage@.len(),
    ensures
        final(tx).wf(),
        final(tx).db() == old(tx).db(),
        step_holds(push_step(old(tx)@, storage@[old(tx).db()], arg_views(a@), now, left), r, final(tx)@),
{
    proof {
        lemma_arg_views(a@);
    }
    if a.len() < 2 {
        return Err(arity_error(
            if left {
                "LPUSH"
            } else {
                "RPUSH"
            },
        ));
    }
    let key = arg_text(&a[0]);
    let mut l = match tx.load_list(storage, key.as_str(), now) {
        Ok(l) => l,
        Err(e) => {
            return Err(e);
        },
    };
    let mut elems = copy_range_of(a, 1, a.len());
    proof {
        assert(bytes_views(a@) =~= arg_views(a@));
    }
    let ghost lv = bytes_views(l@);
    let ghost ev = bytes_views(elems@);
    let n = if left {
        elems.append(&mut l);
        proof {
            assert(bytes_views(elems@) =~= ev + lv);
        }
        elems
    } else {
        l.append(&mut elems);
        proof {
            assert(bytes_views(l@) =~= lv + ev);
        }
        l
    };
    let len = n.len();
    tx.put(key, Some(StoredValue::List(n)));
    Ok(RespValue::Integer(len as i64))
}

fn call_pop(tx: &mut ScriptTransaction, storage: &StorageEngine, a: &[Vec<u8>], now: u64, left: bool) -> (r: Result<
    RespValue,
    AikvError,
>)
    requires
        old(tx).wf(),
        storage.wf(),
        old(tx).db() < storage@.len(),
    ensures
        final(tx).wf(),
        final(tx).db() == old(tx).db(),
        step_holds(pop_step(old(tx)@, storage@[old(tx).db()], arg_views(a@), now, left), r, final(tx)@),
{
    proof {
        lemma_arg_views(a@);
    }
    if a.len() == 0 {
        return Err(arity_error(
            if left {
                "LPOP"
            } else {
                "RPOP"
            },
        ));
    }
    let count: usize = if a.len() > 1 {
        match arg_usize(&a[1]) {
            Some(n) => n,
            None => 1,
        }
    } else {
        1
    };
    let single = count == 1 && a.len() == 1;
    let key = arg_text(&a[0]);
    let l = match tx.get_value(storage, key.as_str(), now) {
        Some(StoredValue::List(l)) => l,
        None => {
            return Ok(RespValue::Null);
        },
        Some(_) => {
            return Err(wrong_type_error());
        },
    };
    let ghost lv = bytes_views(l@);
    let len = l.len();
    let k = if count < len {
        count
    } else {
        len
    };
    if single && k == 0 {
        return Ok(RespValue::Null);
    }
    let (vals, rest) = if left {
        (copy_range_of(&l, 0, k), copy_range_of(&l, k, len))
    } else {
        let tail = copy_range_of(&l, len - k, len);
        (reversed(&tail), copy_range_of(&l, 0, len - k))
    };
    proof {
        if left {
            assert(lv.subrange(0, k as int) =~= lv.take(k as int));
            assert(lv.subrange(k as int, len as int) =~= lv.skip(k as int));
        } else {
            assert(lv.subrange(len - k, len as int) =~= lv.skip(len - k));
            assert(lv.subrange(0, len - k) =~= lv.take(len - k));
        }
    }
    tx.store_list(key, rest);
    if k == 0 {
        Ok(RespValue::Null)
    } else if single {
        Ok(RespValue::BulkString(Some(copy_bytes(&vals[0]))))
    } else {
        Ok(bulk_list(&vals))
    }
}

fn call_llen(tx: &ScriptTransaction, storage: &StorageEngine, a: &[Vec<u8>], now: u64) -> (r: Result<RespValue, AikvError>)
    requires
        tx.wf(),
        storage.wf(),
        tx.db() < storage@.len(),
    ensures
        models(r, llen_step(tx@, storage@[tx.db()], arg_views(a@), now).0),
{
    proof {
        lemma_arg_views(a@);
    }
    if a.len() != 1 {
        return Err(arity_error("LLEN"));
    }
    let key = arg_text(&a[0]);
    match tx.load_list(storage, key.as_str(), now) {
        Ok(l) => Ok(RespValue::Integer(l.len() as i64)),
        Err(e) => Err(e),
    }
}

/// The positions LRANGE selects (see `script_range`).
fn script_bounds(len: usize, start: i64, stop: i64) -> (r: (usize, usize))
    ensures
        (r.0 as int, r.1 as int) == script_range(len as int, start as int, stop as int),
        r.0 <= r.1 <= len,
{
    let n = len as i128;
    let s: i128 = if start < 0 {
        if n + (start as i128) > 0 {
            n + (start as i128)
        } else {
            0
        }
    } else if (start as i128) < n {
        start as i128
    } else {
        n
    };
    let e: i128 = if stop < 0 {
        if n + (stop as i128) + 1 > 0 {
            n + (stop as i128) + 1
        } else {
            0
        }
    } else if (stop as i128) + 1 < n {
        (stop as i128) + 1
    } else {
        n
    };
    if s >= e {
        (0, 0)
    } else {
        (s as usize, e as usize)
    }
}

fn call_lrange(tx: &ScriptTransaction, storage: &StorageEngine, a: &[Vec<u8>], now: u64) -> (r: Result<RespValue, AikvError>)
    requires
        tx.wf(),
        storage.wf(),
        tx.db() < storage@.len(),
    ensures
        models(r, lrange_step(tx@, storage@[tx.db()], arg_views(a@), now).0),
{
    proof {
        lemma_arg_views(a@);
    }
    if a.len() != 3 {
        return Err(arity_error("LRANGE"));
    }
    let start = match arg_i64(&a[1]) {
        Some(v) => v,
        None => {
            return Err(invalid_error("start is not an integer"));
        },
    };
    let stop = match arg_i64(&a[2]) {
        Some(v) => v,
        None => {
            return Err(invalid_error("stop is not an integer"));
        },
    };
    let key = arg_text(&a[0]);
    let l = match tx.load_list(storage, key.as_str(), now) {
        Ok(l) => l,
        Err(e) => {
            return Err(e);
        },
    };
    let (from, to) = script_bounds(l.len(), start, stop);
    let part = copy_range_of(&l, from, to);
    Ok(bulk_list(&part))
}

fn call_lindex(tx: &ScriptTransaction, storage: &StorageEngine, a: &[Vec<u8>], now: u64) -> (r: Result<RespValue, AikvError>)
    requires
        tx.wf(),
        storage.wf(),
        tx.db() < storage@.len(),
    ensures
        models(r, lindex_step(tx@, storage@[tx.db()], arg_views(a@), now).0),
{
    proof {
        lemma_arg_views(a@);
    }
    if a.len() != 2 {
        return Err(arity_error("LINDEX"));
    }
    let index = match arg_i64(&a[1]) {
        Some(v) => v,
        None => {
            return Err(invalid_error("index is not an integer"));
        },
    };
    let key = arg_text(&a[0]);
    let l = match tx.load_list(storage, key.as_str(), now) {
        Ok(l) => l,
        Err(e) => {
            return Err(e);
        },
    };
    let n = l.len() as i128;
    let p: i128 = if index < 0 {
        n + (index as i128)
    } else {
        index as i128
    };
    if p < 0 || p >= n {
        Ok(RespValue::Null)
    } else {
        Ok(RespValue::BulkString(Some(copy_bytes(&l[p as usize]))))
    }
}

/// Runs the list command `name` for a script; `None` when it is not one.
fn run_list_command(tx: &mut ScriptTransaction, storage: &StorageEngine, name: &str, a: &[Vec<u8>], now: u64) -> (r: Option<
    Result<RespValue, AikvError>,
>)
    requires
        old(tx).wf(),
        storage.wf(),
        old(tx).db() < storage@.len(),
    ensures
        final(tx).wf(),
        final(tx).db() == old(tx).db(),
        match list_call_step(old(tx)@, storage@[old(tx).db()], name@, arg_views(a@), now) {
            None => r is None && final(tx)@ == old(tx)@,
            Some(step) => r matches Some(x) && step_holds(step, x, final(tx)@),
        },
{
    if str_eq(name, "LPUSH") {
        Some(call_push(tx, storage, a, now, true))
    } else if str_eq(name, "RPUSH") {
        Some(call_push(tx, storage, a, now, false))
    } else if str_eq(name, "LPOP") {
        Some(call_pop(tx, storage, a, now, true))
    } else if str_eq(name, "RPOP") {
        Some(call_pop(tx, storage, a, now, false))
    } else if str_eq(name, "LLEN") {
        Some(call_llen(tx, storage, a, now))
    } else if str_eq(name, "LRANGE") {
        Some(call_lrange(tx, storage, a, now))
    } else if str_eq(name, "LINDEX") {
        Some(call_lindex(tx, storage, a, now))
    } else {
        None
    }
}

} // verus!
