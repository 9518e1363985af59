//! Database commands: SELECT, DBSIZE, FLUSHDB, FLUSHALL, SWAPDB, MOVE.
use crate::command::reply::{
    arg_text, arg_usize, arg_views, arity_error, db_range_error, invalid_error, key_of, ok_reply,
    outcome_holds, usize_arg, Failure, Reply,
};
use crate::error::AikvError;
use crate::protocol::RespValue;
use crate::storage::{live_keys, lookup, unix_time_millis, DbView, EntryView, StorageEngine};
use vstd::prelude::*;

verus! {

/// Databases that SELECT, SWAPDB and MOVE accept.
pub const DATABASE_COUNT: usize = 16;

/// `db` names a database of `m`.
pub open spec fn db_ok(m: Seq<DbView>, db: int) -> bool {
    0 <= db < m.len()
}

/// SELECT index: the answer and the database selected afterwards.
pub open spec fn select_spec(args: Seq<Seq<u8>>, current: int) -> (Reply, int) {
    if args.len() != 1 {
        (Reply::Fail(Failure::Arity("SELECT"@)), current)
    } else {
        match usize_arg(args[0]) {
            None => (Reply::Fail(Failure::Invalid("ERR invalid DB index"@)), current),
            Some(i) => if i >= DATABASE_COUNT {
                (Reply::Fail(Failure::Invalid("ERR DB index is out of range"@)), current)
            } else {
                (ok_reply(), i as int)
            },
        }
    }
}

/// DBSIZE
pub open spec fn dbsize_spec(m: Seq<DbView>, db: int, now: u64) -> (Reply, Seq<DbView>) {
    if !db_ok(m, db) {
        (Reply::Fail(Failure::DbRange), m)
    } else {
        (Reply::Int(live_keys(m[db], now).len() as int), m)
    }
}

/// FLUSHDB
pub open spec fn flushdb_spec(m: Seq<DbView>, db: int) -> (Reply, Seq<DbView>) {
    if !db_ok(m, db) {
        (Reply::Fail(Failure::DbRange), m)
    } else {
        (ok_reply(), m.update(db, Map::empty()))
    }
}

/// FLUSHALL
pub open spec fn flushall_spec(m: Seq<DbView>) -> (Reply, Seq<DbView>) {
    (ok_reply(), Seq::new(m.len(), |i: int| Map::<Seq<char>, EntryView>::empty()))
}

/// SWAPDB db1 db2
pub open spec fn swapdb_spec(m: Seq<DbView>, args: Seq<Seq<u8>>) -> (Reply, Seq<DbView>) {
    if args.len() != 2 {
        (Reply::Fail(Failure::Arity("SWAPDB"@)), m)
    } else {
        match (usize_arg(args[0]), usize_arg(args[1])) {
            (None, _) => (Reply::Fail(Failure::Invalid("ERR invalid first DB index"@)), m),
            (Some(_), None) => (Reply::Fail(Failure::Invalid("ERR invalid second DB index"@)), m),
            (Some(a), Some(b)) => if a >= DATABASE_COUNT || b >= DATABASE_COUNT {
                (Reply::Fail(Failure::Invalid("ERR DB index is out of range"@)), m)
            } else if !db_ok(m, a as int) || !db_ok(m, b as int) {
                (Reply::Fail(Failure::DbRange), m)
            } else {
                (ok_reply(), m.update(a as int, m[b as int]).update(b as int, m[a as int]))
            },
        }
    }
}

/// MOVE key db: moves the key when it holds a value here and nothing there.
pub open spec fn move_spec(m: Seq<DbView>, db: int, args: Seq<Seq<u8>>, now: u64) -> (Reply, Seq<DbView>) {
    if args.len() != 2 {
        (Reply::Fail(Failure::Arity("MOVE"@)), m)
    } else {
        match usize_arg(args[1]) {
            None => (Reply::Fail(Failure::Invalid("ERR invalid DB index"@)), m),
            Some(dest) => if dest >= DATABASE_COUNT {
                (Reply::Fail(Failure::Invalid("ERR DB index is out of range"@)), m)
            } else if !db_ok(m, db) || !db_ok(m, dest as int) {
                (Reply::Fail(Failure::DbRange), m)
            } else {
                let key = key_of(args[0]);
                match lookup(m[db], key, now) {
                    None => (Reply::Int(0), m),
                    Some(e) => if dest == db || lookup(m[dest as int], key, now) is Some {
                        (Reply::Int(0), m)
                    } else {
                        let m1 = m.update(db, m[db].remove(key));
                        (Reply::Int(1), m1.update(dest as int, m1[dest as int].insert(key, e)))
                    },
                }
            },
        }
    }
}

/// Handles the database commands against a keyspace.
#[derive(Debug)]
pub struct DatabaseCommands {
    storage: StorageEngine,
}

impl View for DatabaseCommands {
    type V = Seq<DbView>;

    closed spec fn view(&self) -> Seq<DbView> {
        self.storage@
    }
}

impl DatabaseCommands {
    /// The handler's keyspace is well formed.
    pub closed spec fn wf(&self) -> bool {
        self.storage.wf()
    }

    /// A handler over `storage`.
    pub fn new(storage: StorageEngine) -> (r: Self)
        requires
            storage.wf(),
        ensures
            r.wf(),
            r@ == storage@,
    {
        DatabaseCommands { storage }
    }

    /// Gives the keyspace back.
    pub fn into_storage(self) -> (r: StorageEngine)
        requires
            self.wf(),
        ensures
            r.wf(),
            r@ == self@,
    {
        self.storage
    }

    /// SELECT index: makes the database current.
    pub fn select(&self, args: &[Vec<u8>], current_db: &mut usize) -> (r: Result<RespValue, AikvError>)
        ensures
            crate::command::reply::models(r, select_spec(arg_views(args@), *old(current_db) as int).0),
            *final(current_db) as int == select_spec(arg_views(args@), *old(current_db) as int).1,
    {
        if args.len() != 1 {
            return Err(arity_error("SELECT"));
        }
        proof {
            assert(arg_views(args@)[0] == args@[0]@);
        }
        let index = match arg_usize(&args[0]) {
            Some(i) => i,
            None => {
                return Err(invalid_error("ERR invalid DB index"));
            },
        };
        if index >= DATABASE_COUNT {
            return Err(invalid_error("ERR DB index is out of range"));
        }
        *current_db = index;
        Ok(RespValue::ok())
    }

    /// DBSIZE at time `now`.
    pub fn dbsize_at(&self, current_db: usize, now: u64) -> (r: Result<RespValue, AikvError>)
        requires
            self.wf(),
        ensures
            outcome_holds(dbsize_spec(self@, current_db as int, now), r, self@),
    {
        if current_db >= self.storage.num_dbs() {
            return Err(db_range_error());
        }
        let size = self.storage.dbsize_in_db(current_db, now);
        Ok(RespValue::integer(size as i64))
    }

    /// DBSIZE: number of keys in the current database.
    pub fn dbsize(&self, _args: &[Vec<u8>], current_db: usize) -> (r: Result<RespValue, AikvError>)
        requires
            self.wf(),
        ensures
            exists|now: u64| outcome_holds(dbsize_spec(self@, current_db as int, now), r, self@),
    {
        let now = unix_time_millis();
        let r = self.dbsize_at(current_db, now);
        proof {
            assert(outcome_holds(dbsize_spec(self@, current_db as int, now), r, self@));
        }
        r
    }

    /// FLUSHDB: empties the current database.
    pub fn flushdb(&mut self, _args: &[Vec<u8>], current_db: usize) -> (r: Result<RespValue, AikvError>)
        requires
            old(self).wf(),
        ensures
            final(self).wf(),
            outcome_holds(flushdb_spec(old(self)@, current_db as int), r, final(self)@),
    {
        if current_db >= self.storage.num_dbs() {
            return Err(db_range_error());
        }
        self.storage.flush_db(current_db);
        Ok(RespValue::ok())
    }

    /// FLUSHALL: empties every database.
    pub fn flushall(&mut self, _args: &[Vec<u8>]) -> (r: Result<RespValue, AikvError>)
        requires
            old(self).wf(),
        ensures
            final(self).wf(),
            outcome_holds(flushall_spec(old(self)@), r, final(self)@),
    {
        self.storage.flush_all();
        proof {
            assert(self@ =~= flushall_spec(old(self)@).1);
        }
        Ok(RespValue::ok())
    }

    /// SWAPDB db1 db2: exchanges two databases.
    pub fn swapdb(&mut self, args: &[Vec<u8>]) -> (r: Result<RespValue, AikvError>)
        requires
            old(self).wf(),
        ensures
            final(self).wf(),
            outcome_holds(swapdb_spec(old(self)@, arg_views(args@)), r, final(self)@),
    {
        if args.len() != 2 {
            return Err(arity_error("SWAPDB"));
        }
        proof {
            assert(arg_views(args@)[0] == args@[0]@);
            assert(arg_views(args@)[1] == args@[1]@);
        }
        let db1 = match arg_usize(&args[0]) {
            Some(d) => d,
            None => {
                return Err(invalid_error("ERR invalid first DB index"));
            },
        };
        let db2 = match arg_usize(&args[1]) {
            Some(d) => d,
            None => {
                return Err(invalid_error("ERR invalid second DB index"));
            },
        };
        if db1 >= DATABASE_COUNT || db2 >= DATABASE_COUNT {
            return Err(invalid_error("ERR DB index is out of range"));
        }
        if db1 >= self.storage.num_dbs() || db2 >= self.storage.num_dbs() {
            return Err(db_range_error());
        }
        self.storage.swap_db(db1, db2);
        Ok(RespValue::ok())
    }

    /// MOVE at time `now`.
    pub fn move_key_at(&mut self, args: &[Vec<u8>], current_db: usize, now: u64) -> (r: Result<RespValue, AikvError>)
        requires
            old(self).wf(),
        ensures
            final(self).wf(),
            outcome_holds(move_spec(old(self)@, current_db as int, arg_views(args@), now), r, final(self)@),
    {
        if args.len() != 2 {
            return Err(arity_error("MOVE"));
        }
        proof {
            assert(arg_views(args@)[0] == args@[0]@);
            assert(arg_views(args@)[1] == args@[1]@);
        }
        let key = arg_text(&args[0]);
        let dest_db = match arg_usize(&args[1]) {
            Some(d) => d,
            None => {
                return Err(invalid_error("ERR invalid DB index"));
            },
        };
        if dest_db >= DATABASE_COUNT {
            return Err(invalid_error("ERR DB index is out of range"));
        }
        if current_db >= self.storage.num_dbs() || dest_db >= self.storage.num_dbs() {
            return Err(db_range_error());
        }
        let (value, expire_at) = match self.storage.get_entry(current_db, key.as_str(), now) {
            Some(e) => e,
            None => {
                return Ok(RespValue::integer(0));
            },
        };
        if dest_db == current_db || self.storage.exists_in_db(dest_db, key.as_str(), now) {
            return Ok(RespValue::integer(0));
        }
        let ghost e = EntryView { value: value@, expire_at };
        let ghost m0 = self@;
        proof {
            assert(lookup(m0[current_db as int], key@, now) == Some(e));
        }
        self.storage.delete_from_db(current_db, key.as_str(), now);
        self.storage.set_value(dest_db, key, value, expire_at);
        proof {
            let m1 = m0.update(current_db as int, m0[current_db as int].remove(key@));
            assert(self@ =~= m1.update(dest_db as int, m1[dest_db as int].insert(key@, e)));
        }
        Ok(RespValue::integer(1))
    }

    /// MOVE key db: moves the key to another database; answers 1 when it
    /// did.
    pub fn move_key(&mut self, args: &[Vec<u8>], current_db: usize) -> (r: Result<RespValue, AikvError>)
        requires
            old(self).wf(),
        ensures
            final(self).wf(),
            exists|now: u64| outcome_holds(move_spec(old(self)@, current_db as int, arg_views(args@), now), r, final(self)@),
    {
        let now = unix_time_millis();
        let r = self.move_key_at(args, current_db, now);
        proof {
            assert(outcome_holds(move_spec(old(self)@, current_db as int, arg_views(args@), now), r, self@));
        }
        r
    }
}

} // verus!
