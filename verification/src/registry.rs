//! The resource registry: the capability layer that owns open databases and
//! issues handles. A database handle names a slot that is never reused;
//! derived transaction and cursor handles carry their database handle with
//! them, and every operation validates its handle before touching the
//! engine. Closing a database only marks it dead: derived handles then fail
//! fast instead of touching freed state. Mutating operations take the
//! registry through an exclusive reference, so two operations on the same
//! handle are serialized by construction.

use vstd::prelude::*;

use crate::cursor::IteratorResource;
use crate::engine::{default_cf, default_cf_name, Database};
use crate::errors::KvError;
use crate::keys::copy_bytes;
use crate::options::{decode_config_spec, decode_db_config, default_config, OptEntry};
use crate::txn::Txn;

verus! {

/// A handle to an open database.
#[derive(Clone, Copy, PartialEq, Eq, Structural, Debug)]
pub struct DbHandle {
    pub id: usize,
}

/// A handle to a transaction.
#[derive(Clone, Copy, PartialEq, Eq, Structural, Debug)]
pub struct TxnHandle {
    pub id: usize,
}

/// A handle to a cursor.
#[derive(Clone, Copy, PartialEq, Eq, Structural, Debug)]
pub struct IterHandle {
    pub id: usize,
}

/// A validated reference to a column family of a live database.
pub struct CfRef {
    pub db: DbHandle,
    pub name: Vec<u8>,
}

/// The registry: every database, transaction and cursor this layer has
/// issued, each addressed by the index its handle carries.
pub struct Registry {
    pub dbs: Vec<Database>,
    pub txns: Vec<Txn>,
    pub cursors: Vec<IteratorResource>,
    pub default_db: Option<DbHandle>,
}

impl Registry {
    /// Well-formed: databases well-formed, every transaction bound to an
    /// issued database with buffered writes only against column families
    /// that exist there, cursors within bounds, and the default handle
    /// issued.
    pub open spec fn wf(self) -> bool {
        &&& forall|i: int| 0 <= i < self.dbs@.len() ==> (#[trigger] self.dbs@[i]).wf()
        &&& forall|t: int|
            0 <= t < self.txns@.len() ==> (#[trigger] self.txns@[t]).db.id < self.dbs@.len()
        &&& forall|t: int, w: int|
            0 <= t < self.txns@.len() && 0 <= w < self.txns@[t].writes@.len()
                ==> self.dbs@[self.txns@[t].db.id as int].has_cf(
                (#[trigger] self.txns@[t].writes@[w]).cf@,
            )
        &&& forall|c: int|
            0 <= c < self.cursors@.len() ==> (#[trigger] self.cursors@[c]).pos
                <= self.cursors@[c].yields@.len()
        &&& match self.default_db {
            Some(h) => h.id < self.dbs@.len(),
            None => true,
        }
    }

    /// Whether `h` names an issued, still-open database.
    pub open spec fn db_live(self, h: DbHandle) -> bool {
        h.id < self.dbs@.len() && self.dbs@[h.id as int].alive
    }

    /// The database `h` names.
    pub open spec fn db_at(self, h: DbHandle) -> Database {
        self.dbs@[h.id as int]
    }

    /// Whether two registry states agree on everything the contracts
    /// read: the databases, transactions, cursors and default handle.
    pub open spec fn state_eq(self, other: Registry) -> bool {
        &&& self.dbs@ == other.dbs@
        &&& self.txns == other.txns
        &&& self.cursors == other.cursors
        &&& self.default_db == other.default_db
    }

    /// Whether the default database is set and open.
    pub open spec fn default_live(self) -> bool {
        self.default_db matches Some(h) && self.db_live(h)
    }

    /// The live contents of the default keyspace of the default database.
    pub open spec fn default_map(self) -> Map<Seq<u8>, Seq<u8>> {
        self.db_at(self.default_db->0).cf_map(default_cf())
    }

    /// Whether the default database has its default column family.
    pub open spec fn default_has_cf(self) -> bool {
        self.db_at(self.default_db->0).has_cf(default_cf())
    }

    /// An empty registry: no databases, no derived handles.
    pub fn new() -> (r: Registry)
        ensures
            r.wf(),
            r.dbs@.len() == 0,
            r.txns@.len() == 0,
            r.cursors@.len() == 0,
            r.default_db is None,
    {
        Registry { dbs: Vec::new(), txns: Vec::new(), cursors: Vec::new(), default_db: None }
    }

    /// Opens a database at `path` with a decoded option list, creating it
    /// (and the named column families) when so configured. Exactly the
    /// decode failure and the two refusals to create are errors.
    pub fn open(&mut self, path: &Vec<u8>, opts: &Vec<OptEntry>, cf_names: &Vec<Vec<u8>>) -> (r:
        Result<DbHandle, KvError>)
        requires
            old(self).wf(),
        ensures
            final(self).wf(),
            final(self).txns == old(self).txns,
            final(self).cursors == old(self).cursors,
            final(self).default_db == old(self).default_db,
            match r {
                Ok(h) => {
                    &&& (decode_config_spec(opts@, default_config()) matches Some(c)
                        && c.create_if_missing && (cf_names@.len() == 0
                        || c.create_missing_column_families))
                    &&& h.id == old(self).dbs@.len()
                    &&& final(self).dbs@.len() == old(self).dbs@.len() + 1
                    &&& forall|j: int|
                        0 <= j < old(self).dbs@.len() ==> final(self).dbs@[j] == old(self).dbs@[j]
                    &&& final(self).db_live(h)
                    &&& final(self).db_at(h).next_seq == 1
                    &&& final(self).db_at(h).path@ == path@
                    &&& forall|n: Seq<u8>|
                        #[trigger] final(self).db_at(h).has_cf(n) <==> (n == default_cf()
                            || exists|i: int|
                            0 <= i < cf_names@.len() && (#[trigger] cf_names@[i]@) == n)
                    &&& forall|n: Seq<u8>|
                        final(self).db_at(h).has_cf(n) ==> #[trigger] final(self).db_at(h).cf_map(
                            n,
                        ) =~= Map::<Seq<u8>, Seq<u8>>::empty()
                },
                Err(e) => {
                    &&& *final(self) == *old(self)
                    &&& (e is BadOptionShape <==> decode_config_spec(opts@, default_config())
                        is None)
                    &&& (e is Engine <==> (decode_config_spec(opts@, default_config())
                        matches Some(c) && !(c.create_if_missing && (cf_names@.len() == 0
                        || c.create_missing_column_families))))
                },
            },
    {
        let cfg = match decode_db_config(opts) {
            Ok(c) => c,
            Err(e) => {
                return Err(e);
            },
        };
        if !cfg.create_if_missing {
            return Err(KvError::engine("no database at this path, and creation is off"));
        }
        if cf_names.len() > 0 && !cfg.create_missing_column_families {
            return Err(KvError::engine("missing column families, and creation is off"));
        }
        let db = Database::create(path, cf_names);
        let h = DbHandle { id: self.dbs.len() };
        self.dbs.push(db);
        Ok(h)
    }

    /// Opens (always creating) a fresh database at `path` and makes it the
    /// default one, as the plain `get`/`put`/`delete` surface expects.
    pub fn init(&mut self, path: &Vec<u8>) -> (r: bool)
        requires
            old(self).wf(),
        ensures
            final(self).wf(),
            r == true,
            final(self).txns == old(self).txns,
            final(self).cursors == old(self).cursors,
            final(self).dbs@.len() == old(self).dbs@.len() + 1,
            forall|j: int|
                0 <= j < old(self).dbs@.len() ==> final(self).dbs@[j] == old(self).dbs@[j],
            final(self).default_db matches Some(h) && h.id == old(self).dbs@.len()
                && final(self).db_live(h) && final(self).db_at(h).path@ == path@
                && (forall|n: Seq<u8>| #[trigger] final(self).db_at(h).has_cf(n) <==> n
                == default_cf()) && final(self).default_has_cf() && final(self).default_map()
                =~= Map::<Seq<u8>, Seq<u8>>::empty(),
    {
        let names: Vec<Vec<u8>> = Vec::new();
        let db = Database::create(path, &names);
        let h = DbHandle { id: self.dbs.len() };
        proof {
            assert(db.has_cf(default_cf()));
        }
        self.dbs.push(db);
        self.default_db = Some(h);
        true
    }

    /// Marks the database `h` names closed. Its slot stays issued, so
    /// derived handles fail fast rather than reach freed state.
    pub fn close(&mut self, h: DbHandle)
        requires
            old(self).wf(),
        ensures
            final(self).wf(),
            final(self).txns == old(self).txns,
            final(self).cursors == old(self).cursors,
            final(self).default_db == old(self).default_db,
            h.id < old(self).dbs@.len() ==> {
                &&& final(self).dbs@.len() == old(self).dbs@.len()
                &&& forall|j: int|
                    0 <= j < old(self).dbs@.len() && j != h.id ==> final(self).dbs@[j] == old(self).dbs@[j]
                &&& !final(self).dbs@[h.id as int].alive
                &&& final(self).dbs@[h.id as int].cfs == old(self).dbs@[h.id as int].cfs
                &&& final(self).dbs@[h.id as int].next_seq == old(self).dbs@[h.id as int].next_seq
            },
            h.id >= old(self).dbs@.len() ==> *final(self) == *old(self),
    {
        if h.id < self.dbs.len() {
            self.dbs[h.id].alive = false;
            proof {
                assert forall|i: int| 0 <= i < self.dbs@.len() implies (
                #[trigger] self.dbs@[i]).wf() by {
                    if i != h.id {
                        assert(self.dbs@[i] == old(self).dbs@[i]);
                    } else {
                        assert(self.dbs@[i].cfs == old(self).dbs@[i].cfs);
                        assert(self.dbs@[i].next_seq == old(self).dbs@[i].next_seq);
                    }
                }
                assert forall|t: int, w: int|
                    0 <= t < self.txns@.len() && 0 <= w < self.txns@[t].writes@.len()
                        implies self.dbs@[self.txns@[t].db.id as int].has_cf(
                    (#[trigger] self.txns@[t].writes@[w]).cf@,
                ) by {
                    let d = self.txns@[t].db.id as int;
                    let c = self.txns@[t].writes@[w].cf@;
                    assert(old(self).dbs@[d].has_cf(c));
                    let ci = choose|ci: int|
                        0 <= ci < old(self).dbs@[d].cfs@.len() && (#[trigger] old(self).dbs@[d].cfs@[ci].name@) == c;
                    assert(self.dbs@[d].cfs@[ci].name@ == c);
                }
            }
        }
    }

    /// Looks up a column family by name: a lookup, not an allocation, whose
    /// `NotFound` is an expected outcome.
    pub fn column_family(&self, h: DbHandle, name: &Vec<u8>) -> (r: Result<CfRef, KvError>)
        requires
            self.wf(),
        ensures
            r is Ok <==> (self.db_live(h) && self.db_at(h).has_cf(name@)),
            match r {
                Ok(c) => self.db_live(h) && self.db_at(h).has_cf(name@) && c.db == h && c.name@
                    == name@,
                Err(e) => {
                    &&& (e is InvalidHandle <==> !self.db_live(h))
                    &&& (e is NotFound <==> (self.db_live(h) && !self.db_at(h).has_cf(name@)))
                },
            },
    {
        if h.id >= self.dbs.len() {
            return Err(KvError::InvalidHandle);
        }
        if !self.dbs[h.id].alive {
            return Err(KvError::InvalidHandle);
        }
        match self.dbs[h.id].find_cf(name) {
            Some(_) => Ok(CfRef { db: h, name: copy_bytes(name) }),
            None => Err(KvError::NotFound),
        }
    }

    /// Lists the column family names of the database `h` names, in the
    /// order they were created; the read path of the inspection tools.
    pub fn list_column_families(&self, h: DbHandle) -> (r: Result<Vec<Vec<u8>>, KvError>)
        requires
            self.wf(),
        ensures
            r is Ok <==> self.db_live(h),
            match r {
                Ok(names) => {
                    &&& names@.len() == self.db_at(h).cfs@.len()
                    &&& forall|i: int|
                        0 <= i < names@.len() ==> (#[trigger] names@[i]@) == self.db_at(
                            h,
                        ).cfs@[i].name@
                },
                Err(e) => e is InvalidHandle,
            },
    {
        if h.id >= self.dbs.len() {
            return Err(KvError::InvalidHandle);
        }
        if !self.dbs[h.id].alive {
            return Err(KvError::InvalidHandle);
        }
        let mut names: Vec<Vec<u8>> = Vec::new();
        let mut i: usize = 0;
        while i < self.dbs[h.id].cfs.len()
            invariant
                h.id < self.dbs@.len(),
                i <= self.dbs@[h.id as int].cfs@.len(),
                names@.len() == i,
                forall|j: int|
                    0 <= j < i ==> (#[trigger] names@[j]@) == self.dbs@[h.id
                        as int].cfs@[j].name@,
            decreases self.dbs@[h.id as int].cfs@.len() - i,
        {
            names.push(copy_bytes(&self.dbs[h.id].cfs[i].name));
            i += 1;
        }
        Ok(names)
    }

    /// Reads `key` from the column family `cf` of the database `h` names.
    pub fn get_cf(&self, h: DbHandle, cf: &Vec<u8>, key: &Vec<u8>) -> (r: Result<
        Option<Vec<u8>>,
        KvError,
    >)
        requires
            self.wf(),
        ensures
            r is Ok <==> (self.db_live(h) && self.db_at(h).has_cf(cf@)),
            match r {
                Ok(v) => self.db_live(h) && self.db_at(h).has_cf(cf@) && (match v {
                    Some(b) => self.db_at(h).cf_map(cf@).contains_key(key@) && self.db_at(
                        h,
                    ).cf_map(cf@)[key@] == b@,
                    None => !self.db_at(h).cf_map(cf@).contains_key(key@),
                }),
                Err(e) => {
                    &&& (e is InvalidHandle <==> !self.db_live(h))
                    &&& (e is NotFound <==> (self.db_live(h) && !self.db_at(h).has_cf(cf@)))
                },
            },
    {
        if h.id >= self.dbs.len() {
            return Err(KvError::InvalidHandle);
        }
        if !self.dbs[h.id].alive {
            return Err(KvError::InvalidHandle);
        }
        self.dbs[h.id].lookup(cf, key)
    }

    /// Writes `key` = `value` (or, with `value` `None`, deletes `key`) in
    /// the column family `cf` of the database `h` names. Exactly this key
    /// changes; every failure leaves the registry untouched.
    pub fn write_cf(&mut self, h: DbHandle, cf: &Vec<u8>, key: &Vec<u8>, value: Option<Vec<u8>>) -> (r:
        Result<(), KvError>)
        requires
            old(self).wf(),
        ensures
            final(self).wf(),
            final(self).txns == old(self).txns,
            final(self).cursors == old(self).cursors,
            final(self).default_db == old(self).default_db,
            r is Ok <==> (old(self).db_live(h) && old(self).db_at(h).has_cf(cf@) && old(self).db_at(h).next_seq < u64::MAX),
            match r {
                Ok(()) => {
                    &&& old(self).db_live(h) && old(self).db_at(h).has_cf(cf@)
                    &&& old(self).db_at(h).next_seq < u64::MAX
                    &&& final(self).dbs@.len() == old(self).dbs@.len()
                    &&& forall|j: int|
                        0 <= j < old(self).dbs@.len() && j != h.id ==> final(self).dbs@[j] == old(self).dbs@[j]
                    &&& final(self).db_live(h)
                    &&& final(self).db_at(h).path == old(self).db_at(h).path
                    &&& final(self).db_at(h).next_seq == old(self).db_at(h).next_seq + 1
                    &&& forall|n: Seq<u8>|
                        #[trigger] final(self).db_at(h).has_cf(n) == old(self).db_at(h).has_cf(n)
                    &&& forall|n: Seq<u8>|
                        n != cf@ && old(self).db_at(h).has_cf(n) ==> #[trigger] final(self).db_at(
                            h,
                        ).cf_map(n) == old(self).db_at(h).cf_map(n)
                    &&& final(self).db_at(h).cf_map(cf@) == (match value {
                        Some(v) => old(self).db_at(h).cf_map(cf@).insert(key@, v@),
                        None => old(self).db_at(h).cf_map(cf@).remove(key@),
                    })
                    &&& final(self).db_at(h).cf_stamp(cf@, key@) == old(self).db_at(h).next_seq
                    &&& forall|n: Seq<u8>, k: Seq<u8>|
                        !(n == cf@ && k == key@) && old(self).db_at(h).has_cf(n)
                            ==> #[trigger] final(self).db_at(h).cf_stamp(n, k) == old(self).db_at(h).cf_stamp(n, k)
                },
                Err(e) => {
                    &&& final(self).state_eq(*old(self))
                    &&& (e is InvalidHandle <==> !old(self).db_live(h))
                    &&& (e is NotFound <==> (old(self).db_live(h) && !old(self).db_at(h).has_cf(
                        cf@,
                    )))
                    &&& (e is Engine <==> (old(self).db_live(h) && old(self).db_at(h).has_cf(cf@)
                        && old(self).db_at(h).next_seq == u64::MAX))
                },
            },
    {
        if h.id >= self.dbs.len() {
            return Err(KvError::InvalidHandle);
        }
        if !self.dbs[h.id].alive {
            return Err(KvError::InvalidHandle);
        }
        let r = self.dbs[h.id].store(cf, key, value);
        proof {
            if r is Err {
                assert(self.dbs@ =~= old(self).dbs@);
            } else {
                assert forall|t: int, w: int|
                    0 <= t < self.txns@.len() && 0 <= w < self.txns@[t].writes@.len()
                        implies self.dbs@[self.txns@[t].db.id as int].has_cf(
                    (#[trigger] self.txns@[t].writes@[w]).cf@,
                ) by {
                    let d = self.txns@[t].db.id as int;
                    if d == h.id {
                        assert(old(self).dbs@[d].has_cf(old(self).txns@[t].writes@[w].cf@));
                    } else {
                        assert(self.dbs@[d] == old(self).dbs@[d]);
                    }
                }
            }
        }
        r
    }

    /// Writes `key` = `value` in the column family `cf` of the database `h`
    /// names.
    pub fn put_cf(&mut self, h: DbHandle, cf: &Vec<u8>, key: &Vec<u8>, value: &Vec<u8>) -> (r:
        Result<(), KvError>)
        requires
            old(self).wf(),
        ensures
            final(self).wf(),
            final(self).txns == old(self).txns,
            final(self).cursors == old(self).cursors,
            final(self).default_db == old(self).default_db,
            r is Ok <==> (old(self).db_live(h) && old(self).db_at(h).has_cf(cf@) && old(self).db_at(h).next_seq < u64::MAX),
            match r {
                Ok(()) => {
                    &&& old(self).db_live(h) && old(self).db_at(h).has_cf(cf@)
                    &&& final(self).dbs@.len() == old(self).dbs@.len()
                    &&& forall|j: int|
                        0 <= j < old(self).dbs@.len() && j != h.id ==> final(self).dbs@[j] == old(self).dbs@[j]
                    &&& final(self).db_live(h)
                    &&& forall|n: Seq<u8>|
                        #[trigger] final(self).db_at(h).has_cf(n) == old(self).db_at(h).has_cf(n)
                    &&& forall|n: Seq<u8>|
                        n != cf@ && old(self).db_at(h).has_cf(n) ==> #[trigger] final(self).db_at(
                            h,
                        ).cf_map(n) == old(self).db_at(h).cf_map(n)
                    &&& final(self).db_at(h).cf_map(cf@) == old(self).db_at(h).cf_map(cf@).insert(
                        key@,
                        value@,
                    )
                },
                Err(e) => {
                    &&& final(self).state_eq(*old(self))
                    &&& (e is InvalidHandle <==> !old(self).db_live(h))
                    &&& (e is NotFound <==> (old(self).db_live(h) && !old(self).db_at(h).has_cf(
                        cf@,
                    )))
                    &&& (e is Engine <==> (old(self).db_live(h) && old(self).db_at(h).has_cf(cf@)
                        && old(self).db_at(h).next_seq == u64::MAX))
                },
            },
    {
        self.write_cf(h, cf, key, Some(copy_bytes(value)))
    }

    /// Deletes `key` from the column family `cf` of the database `h` names.
    pub fn delete_cf(&mut self, h: DbHandle, cf: &Vec<u8>, key: &Vec<u8>) -> (r: Result<
        (),
        KvError,
    >)
        requires
            old(self).wf(),
        ensures
            final(self).wf(),
            final(self).txns == old(self).txns,
            final(self).cursors == old(self).cursors,
            final(self).default_db == old(self).default_db,
            r is Ok <==> (old(self).db_live(h) && old(self).db_at(h).has_cf(cf@) && old(self).db_at(h).next_seq < u64::MAX),
            match r {
                Ok(()) => {
                    &&& old(self).db_live(h) && old(self).db_at(h).has_cf(cf@)
                    &&& final(self).dbs@.len() == old(self).dbs@.len()
                    &&& forall|j: int|
                        0 <= j < old(self).dbs@.len() && j != h.id ==> final(self).dbs@[j] == old(self).dbs@[j]
                    &&& final(self).db_live(h)
                    &&& forall|n: Seq<u8>|
                        #[trigger] final(self).db_at(h).has_cf(n) == old(self).db_at(h).has_cf(n)
                    &&& forall|n: Seq<u8>|
                        n != cf@ && old(self).db_at(h).has_cf(n) ==> #[trigger] final(self).db_at(
                            h,
                        ).cf_map(n) == old(self).db_at(h).cf_map(n)
                    &&& final(self).db_at(h).cf_map(cf@) == old(self).db_at(h).cf_map(
                        cf@,
                    ).remove(key@)
                },
                Err(e) => {
                    &&& final(self).state_eq(*old(self))
                    &&& (e is InvalidHandle <==> !old(self).db_live(h))
                    &&& (e is NotFound <==> (old(self).db_live(h) && !old(self).db_at(h).has_cf(
                        cf@,
                    )))
                    &&& (e is Engine <==> (old(self).db_live(h) && old(self).db_at(h).has_cf(cf@)
                        && old(self).db_at(h).next_seq == u64::MAX))
                },
            },
    {
        self.write_cf(h, cf, key, None)
    }

    /// Reads `key` from the default keyspace of the default database.
    /// Absence, a missing default database and an engine-level failure all
    /// read as `None`, which is not an error.
    pub fn get(&self, key: &Vec<u8>) -> (r: Option<Vec<u8>>)
        requires
            self.wf(),
        ensures
            match r {
                Some(v) => self.default_live() && self.default_has_cf()
                    && self.default_map().contains_key(key@) && self.default_map()[key@] == v@,
                None => !self.default_live() || !self.default_has_cf()
                    || !self.default_map().contains_key(key@),
            },
    {
        let h = match self.default_db {
            Some(h) => h,
            None => {
                return None;
            },
        };
        let name = default_cf_name();
        proof {
            assert(self.default_db->0 == h);
        }
        match self.get_cf(h, &name, key) {
            Ok(v) => v,
            Err(_) => None,
        }
    }

    /// Writes `key` = `value` to the default keyspace of the default
    /// database; `false` reports any failure.
    pub fn put(&mut self, key: &Vec<u8>, value: &Vec<u8>) -> (r: bool)
        requires
            old(self).wf(),
        ensures
            final(self).wf(),
            final(self).txns == old(self).txns,
            final(self).cursors == old(self).cursors,
            final(self).default_db == old(self).default_db,
            r ==> old(self).default_live() && old(self).default_has_cf() && final(self).default_live() && final(self).default_map() == old(self).default_map().insert(
                key@,
                value@,
            ) && final(self).dbs@.len() == old(self).dbs@.len() && (forall|j: int|
                0 <= j < old(self).dbs@.len() && j != old(self).default_db->0.id ==> final(self).dbs@[j] == old(self).dbs@[j]),
            !r ==> final(self).state_eq(*old(self)) && (!old(self).default_live() || !old(self).default_has_cf() || old(self).db_at(old(self).default_db->0).next_seq == u64::MAX),
    {
        let h = match self.default_db {
            Some(h) => h,
            None => {
                return false;
            },
        };
        let name = default_cf_name();
        match self.put_cf(h, &name, key, value) {
            Ok(()) => true,
            Err(_) => false,
        }
    }

    /// Deletes `key` from the default keyspace of the default database;
    /// `false` reports any failure.
    pub fn delete(&mut self, key: &Vec<u8>) -> (r: bool)
        requires
            old(self).wf(),
        ensures
            final(self).wf(),
            final(self).txns == old(self).txns,
            final(self).cursors == old(self).cursors,
            final(self).default_db == old(self).default_db,
            r ==> old(self).default_live() && old(self).default_has_cf() && final(self).default_live() && final(self).default_map() == old(self).default_map().remove(key@)
                && final(self).dbs@.len() == old(self).dbs@.len() && (forall|j: int|
                0 <= j < old(self).dbs@.len() && j != old(self).default_db->0.id ==> final(self).dbs@[j] == old(self).dbs@[j]),
            !r ==> final(self).state_eq(*old(self)) && (!old(self).default_live() || !old(self).default_has_cf() || old(self).db_at(old(self).default_db->0).next_seq == u64::MAX),
    {
        let h = match self.default_db {
            Some(h) => h,
            None => {
                return false;
            },
        };
        let name = default_cf_name();
        match self.delete_cf(h, &name, key) {
            Ok(()) => true,
            Err(_) => false,
        }
    }
}

/// What a write and a read compose to, over the live-contents maps the
/// operations are specified with: a put of (k, v) followed by a get of k
/// yields exactly v, a delete of k makes k read as absent, and neither
/// touches any other key.
pub proof fn lemma_put_get_delete(m: Map<Seq<u8>, Seq<u8>>, k: Seq<u8>, v: Seq<u8>)
    ensures
        m.insert(k, v).contains_key(k),
        m.insert(k, v)[k] == v,
        !m.remove(k).contains_key(k),
        forall|q: Seq<u8>|
            q != k ==> #[trigger] m.insert(k, v).contains_key(q) == m.contains_key(q),
        forall|q: Seq<u8>|
            q != k && m.contains_key(q) ==> #[trigger] m.insert(k, v)[q] == m[q],
        forall|q: Seq<u8>|
            q != k ==> #[trigger] m.remove(k).contains_key(q) == m.contains_key(q),
{
}

} // verus!
