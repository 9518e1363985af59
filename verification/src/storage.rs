//! The keyspace: numbered databases mapping keys to typed values with an
//! optional expiry time.
use crate::command::reply::{error_models, wrong_type_error, Failure};
use crate::error::AikvError;
use crate::text::{str_eq, views};
use vstd::prelude::*;

verus! {

/// Number of databases a server starts with.
pub const DEFAULT_DATABASES: usize = 16;

/// What a value holds, as mathematical sequences.
pub ghost enum ValueView {
    Str(Seq<u8>),
    List(Seq<Seq<u8>>),
    Hash(Seq<(Seq<u8>, Seq<u8>)>),
    SetMembers(Seq<Seq<u8>>),
}

/// A stored value.
#[derive(Debug)]
pub enum StoredValue {
    /// A byte string.
    Str(Vec<u8>),
    /// A list of byte strings, head first.
    List(Vec<Vec<u8>>),
    /// Field/value pairs.
    Hash(Vec<(Vec<u8>, Vec<u8>)>),
    /// Members of a set.
    SetMembers(Vec<Vec<u8>>),
}

/// The contents of a sequence of byte vectors.
pub open spec fn bytes_views(s: Seq<Vec<u8>>) -> Seq<Seq<u8>> {
    s.map_values(|x: Vec<u8>| x@)
}

/// The contents of a sequence of byte-vector pairs.
pub open spec fn pair_views(s: Seq<(Vec<u8>, Vec<u8>)>) -> Seq<(Seq<u8>, Seq<u8>)> {
    s.map_values(|p: (Vec<u8>, Vec<u8>)| (p.0@, p.1@))
}

impl View for StoredValue {
    type V = ValueView;

    open spec fn view(&self) -> ValueView {
        match self {
            StoredValue::Str(b) => ValueView::Str(b@),
            StoredValue::List(l) => ValueView::List(bytes_views(l@)),
            StoredValue::Hash(h) => ValueView::Hash(pair_views(h@)),
            StoredValue::SetMembers(s) => ValueView::SetMembers(bytes_views(s@)),
        }
    }
}

/// A copy of a byte vector.
pub fn copy_bytes(v: &Vec<u8>) -> (r: Vec<u8>)
    ensures
        r@ == v@,
{
    let mut r: Vec<u8> = Vec::new();
    let mut i: usize = 0;
    while i < v.len()
        invariant
            i <= v.len(),
            r@ == v@.subrange(0, i as int),
        decreases v.len() - i,
    {
        r.push(v[i]);
        i = i + 1;
        proof {
            assert(r@ =~= v@.subrange(0, i as int));
        }
    }
    proof {
        assert(v@.subrange(0, v@.len() as int) =~= v@);
    }
    r
}

/// A copy of `v[from..to]`.
pub fn copy_range(v: &Vec<u8>, from: usize, to: usize) -> (r: Vec<u8>)
    requires
        from <= to <= v.len(),
    ensures
        r@ == v@.subrange(from as int, to as int),
{
    let mut r: Vec<u8> = Vec::new();
    let mut i: usize = from;
    while i < to
        invariant
            from <= i <= to,
            to <= v.len(),
            r@ == v@.subrange(from as int, i as int),
        decreases to - i,
    {
        r.push(v[i]);
        i = i + 1;
        proof {
            assert(r@ =~= v@.subrange(from as int, i as int));
        }
    }
    r
}

/// A copy of a vector of byte vectors.
pub fn copy_byte_list(v: &Vec<Vec<u8>>) -> (r: Vec<Vec<u8>>)
    ensures
        bytes_views(r@) == bytes_views(v@),
{
    let mut r: Vec<Vec<u8>> = Vec::new();
    let mut i: usize = 0;
    while i < v.len()
        invariant
            i <= v.len(),
            r@.len() == i,
            forall|j: int| 0 <= j < i ==> #[trigger] r@[j]@ == v@[j]@,
        decreases v.len() - i,
    {
        r.push(copy_bytes(&v[i]));
        i = i + 1;
    }
    proof {
        assert(bytes_views(r@) =~= bytes_views(v@));
    }
    r
}

/// Whether two byte vectors hold the same bytes.
pub fn bytes_eq(a: &Vec<u8>, b: &Vec<u8>) -> (r: bool)
    ensures
        r == (a@ == b@),
{
    if a.len() != b.len() {
        return false;
    }
    let mut i: usize = 0;
    while i < a.len()
        invariant
            i <= a.len(),
            a@.len() == b@.len(),
            forall|j: int| 0 <= j < i ==> a@[j] == b@[j],
        decreases a.len() - i,
    {
        if a[i] != b[i] {
            return false;
        }
        i = i + 1;
    }
    proof {
        assert(a@ =~= b@);
    }
    true
}

/// The keyspace after `key` of database `db` is set to `v`, with no expiry.
pub open spec fn put_value(m: Seq<DbView>, db: int, key: Seq<char>, v: ValueView) -> Seq<DbView> {
    m.update(db, m[db].insert(key, EntryView { value: v, expire_at: None }))
}

/// The keyspace after `key` is removed from database `db`.
pub open spec fn drop_key(m: Seq<DbView>, db: int, key: Seq<char>) -> Seq<DbView> {
    m.update(db, m[db].remove(key))
}

/// A copy of a vector of byte-vector pairs.
pub fn copy_pairs(v: &Vec<(Vec<u8>, Vec<u8>)>) -> (r: Vec<(Vec<u8>, Vec<u8>)>)
    ensures
        pair_views(r@) == pair_views(v@),
{
    let mut r: Vec<(Vec<u8>, Vec<u8>)> = Vec::new();
    let mut i: usize = 0;
    while i < v.len()
        invariant
            i <= v.len(),
            r@.len() == i,
            forall|j: int| 0 <= j < i ==> #[trigger] r@[j].0@ == v@[j].0@ && r@[j].1@ == v@[j].1@,
        decreases v.len() - i,
    {
        let a = copy_bytes(&v[i].0);
        let b = copy_bytes(&v[i].1);
        let ghost before = r@;
        r.push((a, b));
        proof {
            assert forall|j: int| 0 <= j < i + 1 implies #[trigger] r@[j].0@ == v@[j].0@ && r@[j].1@ == v@[j].1@ by {
                if j < i {
                    assert(r@[j] == before[j]);
                }
            }
        }
        i = i + 1;
    }
    proof {
        assert(pair_views(r@) =~= pair_views(v@));
    }
    r
}

impl StoredValue {
    /// A copy of the value.
    pub fn copy(&self) -> (r: Self)
        ensures
            r@ == self@,
    {
        match self {
            StoredValue::Str(b) => StoredValue::Str(copy_bytes(b)),
            StoredValue::List(l) => StoredValue::List(copy_byte_list(l)),
            StoredValue::Hash(h) => StoredValue::Hash(copy_pairs(h)),
            StoredValue::SetMembers(s) => StoredValue::SetMembers(copy_byte_list(s)),
        }
    }

    /// The type name that `TYPE` reports.
    pub fn kind_name(&self) -> (r: &'static str)
        ensures
            r@ == kind_name_spec(self@),
    {
        match self {
            StoredValue::Str(_) => "string",
            StoredValue::List(_) => "list",
            StoredValue::Hash(_) => "hash",
            StoredValue::SetMembers(_) => "set",
        }
    }
}

/// The type name of a value.
pub open spec fn kind_name_spec(v: ValueView) -> Seq<char> {
    match v {
        ValueView::Str(_) => "string"@,
        ValueView::List(_) => "list"@,
        ValueView::Hash(_) => "hash"@,
        ValueView::SetMembers(_) => "set"@,
    }
}

/// A key's value and its expiry time (Unix milliseconds), if any.
pub ghost struct EntryView {
    pub value: ValueView,
    pub expire_at: Option<u64>,
}

/// A database: keys to entries.
pub type DbView = Map<Seq<char>, EntryView>;

/// An entry has not expired at time `now` (Unix milliseconds).
pub open spec fn is_live(e: EntryView, now: u64) -> bool {
    match e.expire_at {
        None => true,
        Some(t) => now < t,
    }
}

/// The entry that `key` holds at time `now`, if any: expired entries count
/// as absent.
pub open spec fn lookup(m: DbView, key: Seq<char>, now: u64) -> Option<EntryView> {
    if m.contains_key(key) && is_live(m[key], now) {
        Some(m[key])
    } else {
        None
    }
}

/// The keys that hold an entry at time `now`.
pub open spec fn live_keys(m: DbView, now: u64) -> Set<Seq<char>> {
    m.dom().filter(|k: Seq<char>| is_live(m[k], now))
}

/// What a key holds when read as a string.
pub ghost enum StrLookup {
    /// The key holds nothing.
    Absent,
    /// The key holds these bytes.
    Found(Seq<u8>),
    /// The key holds a value of another kind.
    WrongType,
}

/// What `key` holds at time `now` when read as a string.
pub open spec fn str_lookup(m: DbView, key: Seq<char>, now: u64) -> StrLookup {
    match lookup(m, key, now) {
        None => StrLookup::Absent,
        Some(e) => match e.value {
            ValueView::Str(b) => StrLookup::Found(b),
            _ => StrLookup::WrongType,
        },
    }
}

/// What a key holds when read as a value of one kind.
pub ghost enum Typed<T> {
    /// The key holds nothing.
    Absent,
    /// The key holds a value of the kind, with these contents.
    Found(T),
    /// The key holds a value of another kind.
    WrongType,
}

/// What `key` holds at time `now` when read as a hash.
pub open spec fn hash_lookup(m: DbView, key: Seq<char>, now: u64) -> Typed<Seq<(Seq<u8>, Seq<u8>)>> {
    match lookup(m, key, now) {
        None => Typed::Absent,
        Some(e) => match e.value {
            ValueView::Hash(h) => Typed::Found(h),
            _ => Typed::WrongType,
        },
    }
}

/// What `key` holds at time `now` when read as a list.
pub open spec fn list_lookup(m: DbView, key: Seq<char>, now: u64) -> Typed<Seq<Seq<u8>>> {
    match lookup(m, key, now) {
        None => Typed::Absent,
        Some(e) => match e.value {
            ValueView::List(l) => Typed::Found(l),
            _ => Typed::WrongType,
        },
    }
}

/// What `key` holds at time `now` when read as a set.
pub open spec fn set_lookup(m: DbView, key: Seq<char>, now: u64) -> Typed<Seq<Seq<u8>>> {
    match lookup(m, key, now) {
        None => Typed::Absent,
        Some(e) => match e.value {
            ValueView::SetMembers(l) => Typed::Found(l),
            _ => Typed::WrongType,
        },
    }
}

/// A stored key with its value and expiry.
#[derive(Debug)]
pub struct Entry {
    /// The key.
    pub key: String,
    /// The value.
    pub value: StoredValue,
    /// Expiry time in Unix milliseconds, if any.
    pub expire_at: Option<u64>,
}

impl View for Entry {
    type V = EntryView;

    open spec fn view(&self) -> EntryView {
        EntryView { value: self.value@, expire_at: self.expire_at }
    }
}

/// The database that a sequence of entries with distinct keys stands for.
pub open spec fn map_of(s: Seq<Entry>) -> DbView
    decreases s.len(),
{
    if s.len() == 0 {
        Map::empty()
    } else {
        map_of(s.drop_last()).insert(s.last().key@, s.last()@)
    }
}

/// No two entries share a key.
pub open spec fn unique_keys(s: Seq<Entry>) -> bool {
    forall|i: int, j: int| 0 <= i < j < s.len() ==> s[i].key@ != s[j].key@
}

proof fn lemma_map_of(s: Seq<Entry>)
    requires
        unique_keys(s),
    ensures
        map_of(s).dom().finite(),
        map_of(s).dom().len() == s.len(),
        forall|i: int| 0 <= i < s.len() ==> #[trigger] map_of(s).contains_key(s[i].key@) && map_of(s)[s[i].key@] == s[i]@,
        forall|k: Seq<char>| #[trigger] map_of(s).contains_key(k) ==> exists|i: int| 0 <= i < s.len() && s[i].key@ == k,
    decreases s.len(),
{
    if s.len() == 0 {
        assert(map_of(s).dom() =~= Set::<Seq<char>>::empty());
    } else {
        let p = s.drop_last();
        let x = s.last();
        assert(unique_keys(p));
        lemma_map_of(p);
        let mp = map_of(p);
        if mp.contains_key(x.key@) {
            let i = choose|i: int| 0 <= i < p.len() && p[i].key@ == x.key@;
            assert(s[i].key@ == s[s.len() - 1].key@);
        }
        let m = map_of(s);
        assert(m.dom() =~= mp.dom().insert(x.key@));
        assert forall|i: int| 0 <= i < s.len() implies #[trigger] m.contains_key(s[i].key@) && m[s[i].key@] == s[i]@ by {
            if i < s.len() - 1 {
                assert(p[i] == s[i]);
                assert(s[i].key@ != x.key@);
            }
        }
        assert forall|k: Seq<char>| #[trigger] m.contains_key(k) implies exists|i: int| 0 <= i < s.len() && s[i].key@ == k by {
            if k == x.key@ {
                assert(s[s.len() - 1].key@ == k);
            } else {
                let i = choose|i: int| 0 <= i < p.len() && p[i].key@ == k;
                assert(s[i] == p[i]);
            }
        }
    }
}

proof fn lemma_map_of_update(s: Seq<Entry>, i: int, x: Entry)
    requires
        unique_keys(s),
        0 <= i < s.len(),
        x.key@ == s[i].key@,
    ensures
        unique_keys(s.update(i, x)),
        map_of(s.update(i, x)) =~= map_of(s).insert(x.key@, x@),
{
    let t = s.update(i, x);
    assert(unique_keys(t));
    lemma_map_of(s);
    lemma_map_of(t);
    let a = map_of(t);
    let b = map_of(s).insert(x.key@, x@);
    assert forall|k: Seq<char>| a.contains_key(k) <==> b.contains_key(k) by {
        if a.contains_key(k) {
            let j = choose|j: int| 0 <= j < t.len() && t[j].key@ == k;
            if j != i {
                assert(s[j] == t[j]);
            }
        }
        if k == x.key@ {
            assert(t[i].key@ == k);
        }
        if b.contains_key(k) && k != x.key@ {
            let j = choose|j: int| 0 <= j < s.len() && s[j].key@ == k;
            assert(t[j] == s[j]);
        }
    }
    assert forall|k: Seq<char>| a.contains_key(k) implies a[k] == b[k] by {
        let j = choose|j: int| 0 <= j < t.len() && t[j].key@ == k;
        if j != i {
            assert(s[j] == t[j]);
        }
    }
}

proof fn lemma_map_of_remove(s: Seq<Entry>, i: int)
    requires
        unique_keys(s),
        0 <= i < s.len(),
    ensures
        unique_keys(s.remove(i)),
        map_of(s.remove(i)) =~= map_of(s).remove(s[i].key@),
{
    let t = s.remove(i);
    assert forall|a: int, b: int| 0 <= a < b < t.len() implies t[a].key@ != t[b].key@ by {
        let a2 = if a < i { a } else { a + 1 };
        let b2 = if b < i { b } else { b + 1 };
        assert(t[a] == s[a2]);
        assert(t[b] == s[b2]);
    }
    lemma_map_of(s);
    lemma_map_of(t);
    let ma = map_of(t);
    let mb = map_of(s).remove(s[i].key@);
    assert forall|k: Seq<char>| ma.contains_key(k) <==> mb.contains_key(k) by {
        if ma.contains_key(k) {
            let j = choose|j: int| 0 <= j < t.len() && t[j].key@ == k;
            let j2 = if j < i { j } else { j + 1 };
            assert(t[j] == s[j2]);
        }
        if mb.contains_key(k) {
            let j = choose|j: int| 0 <= j < s.len() && s[j].key@ == k;
            assert(j != i);
            let j2 = if j < i { j } else { j - 1 };
            assert(t[j2] == s[j]);
        }
    }
    assert forall|k: Seq<char>| ma.contains_key(k) implies ma[k] == mb[k] by {
        let j = choose|j: int| 0 <= j < t.len() && t[j].key@ == k;
        let j2 = if j < i { j } else { j + 1 };
        assert(t[j] == s[j2]);
    }
}

proof fn lemma_map_of_push(s: Seq<Entry>, x: Entry)
    requires
        unique_keys(s),
        !map_of(s).contains_key(x.key@),
    ensures
        unique_keys(s.push(x)),
        map_of(s.push(x)) == map_of(s).insert(x.key@, x@),
{
    lemma_map_of(s);
    let t = s.push(x);
    assert(t.drop_last() =~= s);
    assert forall|i: int, j: int| 0 <= i < j < t.len() implies t[i].key@ != t[j].key@ by {
        if j == t.len() - 1 {
            assert(t[i] == s[i]);
        } else {
            assert(t[i] == s[i] && t[j] == s[j]);
        }
    }
}

/// The keys of the live entries, in order.
pub open spec fn live_key_list(s: Seq<Entry>, now: u64) -> Seq<Seq<char>>
    decreases s.len(),
{
    if s.len() == 0 {
        Seq::empty()
    } else {
        let p = live_key_list(s.drop_last(), now);
        if is_live(s.last()@, now) {
            p.push(s.last().key@)
        } else {
            p
        }
    }
}

/// Index of the entry holding `key`, if any.
fn find_entry(entries: &Vec<Entry>, key: &str) -> (r: Option<usize>)
    requires
        unique_keys(entries@),
    ensures
        match r {
            Some(i) => i < entries@.len() && entries@[i as int].key@ == key@,
            None => !map_of(entries@).contains_key(key@),
        },
{
    proof {
        lemma_map_of(entries@);
    }
    let mut i: usize = 0;
    while i < entries.len()
        invariant
            i <= entries@.len(),
            forall|j: int| 0 <= j < i ==> entries@[j].key@ != key@,
        decreases entries.len() - i,
    {
        if str_eq(entries[i].key.as_str(), key) {
            return Some(i);
        }
        i = i + 1;
    }
    None
}

/// Current Unix time in milliseconds, cut to 64 bits (0 if the clock is
/// before the epoch); the value depends on the clock.
pub(crate) fn unix_time_millis() -> (r: u64) {
    let now = crate::clock::system_now();
    match crate::clock::since_epoch(&now) {
        Ok(d) => crate::cluster::config::duration_as_millis(&d) as u64,
        Err(_) => 0,
    }
}

/// A random index below `n` (rand's `Rng::gen_range` on the thread-local
/// generator); which one depends on chance.
#[verifier::external_body]
pub(crate) fn random_below(n: usize) -> (r: usize)
    requires
        n > 0,
    ensures
        r < n,
{
    rand::Rng::gen_range(&mut rand::thread_rng(), 0..n)
}

/// The keyspace: a fixed number of databases.
#[derive(Debug)]
pub struct StorageEngine {
    dbs: Vec<Vec<Entry>>,
}

impl View for StorageEngine {
    type V = Seq<DbView>;

    closed spec fn view(&self) -> Seq<DbView> {
        self.dbs@.map_values(|d: Vec<Entry>| map_of(d@))
    }
}

impl StorageEngine {
    /// Every database holds each key at most once.
    pub closed spec fn wf(&self) -> bool {
        forall|i: int| 0 <= i < self.dbs@.len() ==> #[trigger] unique_keys(self.dbs@[i]@)
    }

    /// The keys of database `db` that hold a value at time `now`, in the
    /// order the database keeps them (the order `get_all_keys_in_db` and
    /// cursors follow).
    pub closed spec fn live_key_seq(&self, db: int, now: u64) -> Seq<Seq<char>> {
        live_key_list(self.dbs@[db]@, now)
    }

    /// Every database is finite.
    pub proof fn lemma_finite(&self)
        requires
            self.wf(),
        ensures
            forall|i: int| 0 <= i < self@.len() ==> #[trigger] self@[i].dom().finite(),
    {
        assert forall|i: int| 0 <= i < self@.len() implies #[trigger] self@[i].dom().finite() by {
            lemma_map_of(self.dbs@[i]@);
        }
    }

    /// An in-memory keyspace with `databases` empty databases.
    pub fn new_memory(databases: usize) -> (r: Self)
        ensures
            r.wf(),
            r@.len() == databases,
            forall|i: int| 0 <= i < databases ==> #[trigger] r@[i] == Map::<Seq<char>, EntryView>::empty(),
    {
        let mut dbs: Vec<Vec<Entry>> = Vec::new();
        let mut i: usize = 0;
        while i < databases
            invariant
                i <= databases,
                dbs@.len() == i,
                forall|j: int| 0 <= j < i ==> #[trigger] dbs@[j]@.len() == 0,
            decreases databases - i,
        {
            dbs.push(Vec::new());
            i = i + 1;
        }
        let r = StorageEngine { dbs };
        proof {
            assert forall|j: int| 0 <= j < databases implies #[trigger] r@[j] == Map::<Seq<char>, EntryView>::empty() by {
                assert(r.dbs@[j]@.len() == 0);
                assert(map_of(r.dbs@[j]@) =~= Map::<Seq<char>, EntryView>::empty());
            }
        }
        r
    }

    /// Number of databases.
    pub fn num_dbs(&self) -> (r: usize)
        ensures
            r == self@.len(),
    {
        self.dbs.len()
    }

    /// The value `key` holds in database `db` at time `now`, if any.
    pub fn get_value(&self, db: usize, key: &str, now: u64) -> (r: Option<StoredValue>)
        requires
            self.wf(),
            db < self@.len(),
        ensures
            match (r, lookup(self@[db as int], key@, now)) {
                (Some(v), Some(e)) => v@ == e.value,
                (None, None) => true,
                _ => false,
            },
    {
        let entries = &self.dbs[db];
        proof {
            assert(unique_keys(self.dbs@[db as int]@));
            lemma_map_of(entries@);
            assert(self@[db as int] == map_of(entries@));
        }
        match find_entry(entries, key) {
            Some(i) => {
                let e = &entries[i];
                let live = match e.expire_at {
                    None => true,
                    Some(t) => now < t,
                };
                if live {
                    Some(e.value.copy())
                } else {
                    None
                }
            },
            None => None,
        }
    }

    /// The string `key` holds in database `db` at time `now`; an error when
    /// it holds a value of another kind.
    pub fn get_from_db(&self, db: usize, key: &str, now: u64) -> (r: Result<Option<Vec<u8>>, AikvError>)
        requires
            self.wf(),
            db < self@.len(),
        ensures
            match str_lookup(self@[db as int], key@, now) {
                StrLookup::Absent => r matches Ok(None),
                StrLookup::Found(b) => r matches Ok(Some(v)) && v@ == b,
                StrLookup::WrongType => r matches Err(e) && error_models(e, Failure::WrongType),
            },
    {
        match self.get_value(db, key, now) {
            None => Ok(None),
            Some(StoredValue::Str(b)) => Ok(Some(b)),
            Some(_) => Err(wrong_type_error()),
        }
    }

    /// The hash `key` holds in database `db` at time `now`; an error when it
    /// holds a value of another kind.
    pub fn get_hash(&self, db: usize, key: &str, now: u64) -> (r: Result<Option<Vec<(Vec<u8>, Vec<u8>)>>, AikvError>)
        requires
            self.wf(),
            db < self@.len(),
        ensures
            match hash_lookup(self@[db as int], key@, now) {
                Typed::Absent => r matches Ok(None),
                Typed::Found(h) => r matches Ok(Some(v)) && pair_views(v@) == h,
                Typed::WrongType => r matches Err(e) && error_models(e, Failure::WrongType),
            },
    {
        match self.get_value(db, key, now) {
            None => Ok(None),
            Some(StoredValue::Hash(h)) => Ok(Some(h)),
            Some(_) => Err(wrong_type_error()),
        }
    }

    /// The list `key` holds in database `db` at time `now`; an error when it
    /// holds a value of another kind.
    pub fn get_list(&self, db: usize, key: &str, now: u64) -> (r: Result<Option<Vec<Vec<u8>>>, AikvError>)
        requires
            self.wf(),
            db < self@.len(),
        ensures
            match list_lookup(self@[db as int], key@, now) {
                Typed::Absent => r matches Ok(None),
                Typed::Found(l) => r matches Ok(Some(v)) && bytes_views(v@) == l,
                Typed::WrongType => r matches Err(e) && error_models(e, Failure::WrongType),
            },
    {
        match self.get_value(db, key, now) {
            None => Ok(None),
            Some(StoredValue::List(l)) => Ok(Some(l)),
            Some(_) => Err(wrong_type_error()),
        }
    }

    /// The set `key` holds in database `db` at time `now`; an error when it
    /// holds a value of another kind.
    pub fn get_set(&self, db: usize, key: &str, now: u64) -> (r: Result<Option<Vec<Vec<u8>>>, AikvError>)
        requires
            self.wf(),
            db < self@.len(),
        ensures
            match set_lookup(self@[db as int], key@, now) {
                Typed::Absent => r matches Ok(None),
                Typed::Found(l) => r matches Ok(Some(v)) && bytes_views(v@) == l,
                Typed::WrongType => r matches Err(e) && error_models(e, Failure::WrongType),
            },
    {
        match self.get_value(db, key, now) {
            None => Ok(None),
            Some(StoredValue::SetMembers(l)) => Ok(Some(l)),
            Some(_) => Err(wrong_type_error()),
        }
    }

    /// The value and expiry of `key` in database `db` at time `now`, if it
    /// holds a value.
    pub fn get_entry(&self, db: usize, key: &str, now: u64) -> (r: Option<(StoredValue, Option<u64>)>)
        requires
            self.wf(),
            db < self@.len(),
        ensures
            match (r, lookup(self@[db as int], key@, now)) {
                (Some((v, t)), Some(e)) => v@ == e.value && t == e.expire_at,
                (None, None) => true,
                _ => false,
            },
    {
        match self.get_value(db, key, now) {
            Some(v) => match self.get_expire(db, key, now) {
                Some(t) => Some((v, t)),
                None => None,
            },
            None => None,
        }
    }

    /// The expiry time of `key` in database `db` at time `now`: `None` when
    /// the key holds nothing, `Some(None)` when it never expires.
    pub fn get_expire(&self, db: usize, key: &str, now: u64) -> (r: Option<Option<u64>>)
        requires
            self.wf(),
            db < self@.len(),
        ensures
            match (r, lookup(self@[db as int], key@, now)) {
                (Some(t), Some(e)) => t == e.expire_at,
                (None, None) => true,
                _ => false,
            },
    {
        let entries = &self.dbs[db];
        proof {
            assert(unique_keys(self.dbs@[db as int]@));
            lemma_map_of(entries@);
            assert(self@[db as int] == map_of(entries@));
        }
        match find_entry(entries, key) {
            Some(i) => {
                let e = &entries[i];
                let live = match e.expire_at {
                    None => true,
                    Some(t) => now < t,
                };
                if live {
                    Some(e.expire_at)
                } else {
                    None
                }
            },
            None => None,
        }
    }

    /// Whether `key` holds a value in database `db` at time `now`.
    pub fn exists_in_db(&self, db: usize, key: &str, now: u64) -> (r: bool)
        requires
            self.wf(),
            db < self@.len(),
        ensures
            r == lookup(self@[db as int], key@, now) is Some,
    {
        self.get_expire(db, key, now).is_some()
    }

    /// Stores `value` under `key` in database `db` with the given expiry,
    /// replacing what the key held.
    pub fn set_value(&mut self, db: usize, key: String, value: StoredValue, expire_at: Option<u64>)
        requires
            old(self).wf(),
            db < old(self)@.len(),
        ensures
            final(self).wf(),
            final(self)@ == old(self)@.update(
                db as int,
                old(self)@[db as int].insert(key@, EntryView { value: value@, expire_at }),
            ),
    {
        let ghost old_dbs = self.dbs@;
        let mut entries: Vec<Entry> = Vec::new();
        std::mem::swap(&mut entries, &mut self.dbs[db]);
        proof {
            assert(unique_keys(old_dbs[db as int]@));
            assert(entries@ == old_dbs[db as int]@);
        }
        let e = Entry { key, value, expire_at };
        let ghost e_view = e@;
        let ghost e_key = e.key@;
        match find_entry(&entries, e.key.as_str()) {
            Some(i) => {
                proof {
                    lemma_map_of_update(entries@, i as int, e);
                }
                entries.set(i, e);
            },
            None => {
                proof {
                    lemma_map_of_push(entries@, e);
                }
                entries.push(e);
            },
        }
        self.dbs.set(db, entries);
        proof {
            assert forall|i: int| 0 <= i < self.dbs@.len() implies #[trigger] unique_keys(self.dbs@[i]@) by {
                if i != db {
                    assert(self.dbs@[i] == old_dbs[i]);
                }
            }
            assert(self@ =~= old(self)@.update(
                db as int,
                old(self)@[db as int].insert(e_key, e_view),
            ));
        }
    }

    /// Removes `key` from database `db`; tells whether it held a value at
    /// time `now`.
    pub fn delete_from_db(&mut self, db: usize, key: &str, now: u64) -> (r: bool)
        requires
            old(self).wf(),
            db < old(self)@.len(),
        ensures
            final(self).wf(),
            r == lookup(old(self)@[db as int], key@, now) is Some,
            final(self)@ == old(self)@.update(db as int, old(self)@[db as int].remove(key@)),
    {
        let ghost old_dbs = self.dbs@;
        proof {
            assert(unique_keys(old_dbs[db as int]@));
            lemma_map_of(old_dbs[db as int]@);
            assert(old(self)@[db as int] == map_of(old_dbs[db as int]@));
        }
        match find_entry(&self.dbs[db], key) {
            Some(i) => {
                let mut entries: Vec<Entry> = Vec::new();
                std::mem::swap(&mut entries, &mut self.dbs[db]);
                proof {
                    lemma_map_of(entries@);
                    lemma_map_of_remove(entries@, i as int);
                }
                let removed = entries.remove(i);
                let live = match removed.expire_at {
                    None => true,
                    Some(t) => now < t,
                };
                self.dbs.set(db, entries);
                proof {
                    assert forall|j: int| 0 <= j < self.dbs@.len() implies #[trigger] unique_keys(self.dbs@[j]@) by {
                        if j != db {
                            assert(self.dbs@[j] == old_dbs[j]);
                        }
                    }
                    assert(self@ =~= old(self)@.update(db as int, old(self)@[db as int].remove(key@)));
                }
                live
            },
            None => {
                proof {
                    assert(old(self)@[db as int].remove(key@) =~= old(self)@[db as int]);
                    assert(self@ =~= old(self)@.update(db as int, old(self)@[db as int].remove(key@)));
                }
                false
            },
        }
    }

    /// Sets the expiry of `key` in database `db` when it holds a value at
    /// time `now`; tells whether it did.
    pub fn set_expire(&mut self, db: usize, key: &str, expire_at: Option<u64>, now: u64) -> (r: bool)
        requires
            old(self).wf(),
            db < old(self)@.len(),
        ensures
            final(self).wf(),
            r == lookup(old(self)@[db as int], key@, now) is Some,
            final(self)@ == (if r {
                old(self)@.update(
                    db as int,
                    old(self)@[db as int].insert(
                        key@,
                        EntryView { expire_at, ..old(self)@[db as int][key@] },
                    ),
                )
            } else {
                old(self)@
            }),
    {
        let ghost old_dbs = self.dbs@;
        proof {
            assert(unique_keys(old_dbs[db as int]@));
            lemma_map_of(old_dbs[db as int]@);
            assert(old(self)@[db as int] == map_of(old_dbs[db as int]@));
        }
        match find_entry(&self.dbs[db], key) {
            Some(i) => {
                proof {
                    let e = old_dbs[db as int]@[i as int];
                    assert(map_of(old_dbs[db as int]@).contains_key(e.key@));
                }
                let live = match self.dbs[db][i].expire_at {
                    None => true,
                    Some(t) => now < t,
                };
                if !live {
                    return false;
                }
                let mut entries: Vec<Entry> = Vec::new();
                std::mem::swap(&mut entries, &mut self.dbs[db]);
                let mut placeholder = Entry { key: String::new(), value: StoredValue::Str(Vec::new()), expire_at: None };
                let ghost before = entries@;
                proof {
                    assert(before == old_dbs[db as int]@);
                }
                std::mem::swap(&mut placeholder, &mut entries[i]);
                placeholder.expire_at = expire_at;
                let ghost e = placeholder;
                std::mem::swap(&mut placeholder, &mut entries[i]);
                proof {
                    assert(entries@ == before.update(i as int, e));
                    lemma_map_of_update(before, i as int, e);
                }
                self.dbs.set(db, entries);
                proof {
                    assert forall|j: int| 0 <= j < self.dbs@.len() implies #[trigger] unique_keys(self.dbs@[j]@) by {
                        if j != db {
                            assert(self.dbs@[j] == old_dbs[j]);
                        }
                    }
                    assert(self@ =~= old(self)@.update(
                        db as int,
                        old(self)@[db as int].insert(
                            key@,
                            EntryView { expire_at, ..old(self)@[db as int][key@] },
                        ),
                    ));
                }
                true
            },
            None => false,
        }
    }

    /// The keys of database `db` that hold a value at time `now`, each once.
    pub fn get_all_keys_in_db(&self, db: usize, now: u64) -> (r: Vec<String>)
        requires
            self.wf(),
            db < self@.len(),
        ensures
            forall|i: int, j: int| 0 <= i < j < r@.len() ==> r@[i]@ != r@[j]@,
            forall|k: Seq<char>| live_keys(self@[db as int], now).contains(k) <==> exists|i: int| 0 <= i < r@.len() && #[trigger] r@[i]@ == k,
            views(r@) == self.live_key_seq(db as int, now),
    {
        let entries = &self.dbs[db];
        proof {
            assert(unique_keys(entries@));
            lemma_map_of(entries@);
        }
        let mut r: Vec<String> = Vec::new();
        let mut i: usize = 0;
        let ghost mut src: Seq<int> = Seq::empty();
        while i < entries.len()
            invariant
                i <= entries@.len(),
                unique_keys(entries@),
                src.len() == r@.len(),
                forall|a: int| 0 <= a < r@.len() ==> 0 <= #[trigger] src[a] < i && r@[a]@ == entries@[src[a]].key@
                    && is_live(entries@[src[a]]@, now),
                forall|a: int, b: int| 0 <= a < b < src.len() ==> src[a] < src[b],
                forall|j: int| 0 <= j < i && is_live(#[trigger] entries@[j]@, now) ==> exists|a: int| 0 <= a < src.len() && #[trigger] src[a] == j,
                views(r@) == live_key_list(entries@.take(i as int), now),
            decreases entries.len() - i,
        {
            let e = &entries[i];
            proof {
                assert(entries@.take(i + 1).drop_last() =~= entries@.take(i as int));
            }
            let live = match e.expire_at {
                None => true,
                Some(t) => now < t,
            };
            if live {
                r.push(e.key.clone());
                proof {
                    let old_src = src;
                    src = src.push(i as int);
                    assert forall|j: int| 0 <= j < i + 1 && is_live(#[trigger] entries@[j]@, now) implies exists|a: int| 0 <= a < src.len() && #[trigger] src[a] == j by {
                        if j == i {
                            assert(src[src.len() - 1] == j);
                        } else {
                            let a = choose|a: int| 0 <= a < old_src.len() && #[trigger] old_src[a] == j;
                            assert(src[a] == j);
                        }
                    }
                }
            }
            i = i + 1;
            proof {
                assert(views(r@) =~= live_key_list(entries@.take(i as int), now));
            }
        }
        proof {
            assert(entries@.take(entries@.len() as int) =~= entries@);
            let m = self@[db as int];
            assert(m == map_of(entries@));
            assert forall|a: int, b: int| 0 <= a < b < r@.len() implies r@[a]@ != r@[b]@ by {
                assert(src[a] < src[b]);
            }
            assert forall|k: Seq<char>| live_keys(m, now).contains(k) implies exists|a: int| 0 <= a < r@.len() && #[trigger] r@[a]@ == k by {
                let j = choose|j: int| 0 <= j < entries@.len() && entries@[j].key@ == k;
                assert(m[entries@[j].key@] == entries@[j]@);
                assert(is_live(entries@[j]@, now));
                let a = choose|a: int| 0 <= a < src.len() && #[trigger] src[a] == j;
                assert(r@[a]@ == k);
            }
            assert forall|k: Seq<char>| (exists|a: int| 0 <= a < r@.len() && #[trigger] r@[a]@ == k) implies live_keys(m, now).contains(k) by {
                let a = choose|a: int| 0 <= a < r@.len() && #[trigger] r@[a]@ == k;
                let j = src[a];
                assert(m.contains_key(entries@[j].key@));
            }
        }
        r
    }

    /// Number of keys of database `db` that hold a value at time `now`.
    pub fn dbsize_in_db(&self, db: usize, now: u64) -> (r: usize)
        requires
            self.wf(),
            db < self@.len(),
        ensures
            r == live_keys(self@[db as int], now).len(),
    {
        let keys = self.get_all_keys_in_db(db, now);
        proof {
            let ks = keys@.map_values(|s: String| s@);
            assert(ks.no_duplicates()) by {
                assert forall|a: int, b: int| 0 <= a < ks.len() && 0 <= b < ks.len() && a != b implies ks[a] != ks[b] by {
                    if a < b {
                        assert(keys@[a]@ != keys@[b]@);
                    } else {
                        assert(keys@[b]@ != keys@[a]@);
                    }
                }
            }
            ks.unique_seq_to_set();
            assert(ks.to_set() =~= live_keys(self@[db as int], now)) by {
                assert forall|k: Seq<char>| ks.to_set().contains(k) <==> live_keys(self@[db as int], now).contains(k) by {
                    if ks.to_set().contains(k) {
                        let a = choose|a: int| 0 <= a < ks.len() && ks[a] == k;
                        assert(keys@[a]@ == k);
                    }
                    if live_keys(self@[db as int], now).contains(k) {
                        let a = choose|a: int| 0 <= a < keys@.len() && #[trigger] keys@[a]@ == k;
                        assert(ks[a] == k);
                    }
                }
            }
        }
        keys.len()
    }

    /// Empties database `db`.
    pub fn flush_db(&mut self, db: usize)
        requires
            old(self).wf(),
            db < old(self)@.len(),
        ensures
            final(self).wf(),
            final(self)@ == old(self)@.update(db as int, Map::<Seq<char>, EntryView>::empty()),
    {
        let ghost old_dbs = self.dbs@;
        self.dbs.set(db, Vec::new());
        proof {
            assert forall|j: int| 0 <= j < self.dbs@.len() implies #[trigger] unique_keys(self.dbs@[j]@) by {
                if j != db {
                    assert(self.dbs@[j] == old_dbs[j]);
                }
            }
            assert(map_of(Seq::<Entry>::empty()) =~= Map::<Seq<char>, EntryView>::empty());
            assert(self@ =~= old(self)@.update(db as int, Map::<Seq<char>, EntryView>::empty()));
        }
    }

    /// Empties every database.
    pub fn flush_all(&mut self)
        requires
            old(self).wf(),
        ensures
            final(self).wf(),
            final(self)@.len() == old(self)@.len(),
            forall|i: int| 0 <= i < final(self)@.len() ==> #[trigger] final(self)@[i] == Map::<Seq<char>, EntryView>::empty(),
    {
        let n = self.dbs.len();
        let mut i: usize = 0;
        while i < n
            invariant
                i <= n,
                n == self@.len(),
                self.wf(),
                forall|j: int| 0 <= j < i ==> #[trigger] self@[j] == Map::<Seq<char>, EntryView>::empty(),
            decreases n - i,
        {
            self.flush_db(i);
            i = i + 1;
        }
    }

    /// Exchanges the contents of databases `a` and `b`.
    pub fn swap_db(&mut self, a: usize, b: usize)
        requires
            old(self).wf(),
            a < old(self)@.len(),
            b < old(self)@.len(),
        ensures
            final(self).wf(),
            final(self)@ == old(self)@.update(a as int, old(self)@[b as int]).update(b as int, old(self)@[a as int]),
    {
        if a == b {
            proof {
                assert(self@ =~= old(self)@.update(a as int, old(self)@[b as int]).update(b as int, old(self)@[a as int]));
            }
            return;
        }
        let ghost old_dbs = self.dbs@;
        let mut da: Vec<Entry> = Vec::new();
        let mut db_: Vec<Entry> = Vec::new();
        std::mem::swap(&mut da, &mut self.dbs[a]);
        std::mem::swap(&mut db_, &mut self.dbs[b]);
        self.dbs.set(a, db_);
        self.dbs.set(b, da);
        proof {
            assert forall|j: int| 0 <= j < self.dbs@.len() implies #[trigger] unique_keys(self.dbs@[j]@) by {
                if j != a && j != b {
                    assert(self.dbs@[j] == old_dbs[j]);
                }
            }
            assert(self@ =~= old(self)@.update(a as int, old(self)@[b as int]).update(b as int, old(self)@[a as int]));
        }
    }
}

} // verus!
