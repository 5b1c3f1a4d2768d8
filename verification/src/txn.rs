//! The transaction state machine: an optimistic transaction buffers its
//! writes against its database, reads through its own buffer, and is
//! consumed exactly once by commit or rollback. A commit first checks every
//! buffered write's key for a conflicting write stamped since the
//! transaction began; on conflict nothing is applied and the transaction is
//! still consumed, since the underlying object is single-shot.

use vstd::prelude::*;

use crate::engine::{opt_bytes, Database};
use crate::errors::KvError;
use crate::keys::copy_bytes;
use crate::registry::{DbHandle, Registry, TxnHandle};

verus! {

/// The lifecycle of a transaction: `Active` until consumed, then one of
/// three terminal states.
#[derive(Clone, Copy, PartialEq, Eq, Structural, Debug)]
pub enum TxnStatus {
    Active,
    Committed,
    RolledBack,
    /// Consumed by a commit attempt that failed (conflict or engine
    /// failure); the writes were not applied.
    Failed,
}

/// One buffered write: a value, or `None` for a deletion, for a key of a
/// column family.
pub struct WriteOp {
    pub cf: Vec<u8>,
    pub key: Vec<u8>,
    pub val: Option<Vec<u8>>,
}

/// One transaction: its database, its state, the sequence number it began
/// at, and its buffered writes in order.
pub struct Txn {
    pub db: DbHandle,
    pub status: TxnStatus,
    pub begin_seq: u64,
    pub writes: Vec<WriteOp>,
}

/// What the transaction's own buffer says about `(cf, k)`: the value (or
/// deletion) of the last buffered write to it, or `None` when the buffer
/// never touched it.
pub open spec fn buffered_read(ws: Seq<WriteOp>, cf: Seq<u8>, k: Seq<u8>) -> Option<
    Option<Seq<u8>>,
>
    decreases ws.len(),
{
    if ws.len() == 0 {
        None
    } else if ws.last().cf@ == cf && ws.last().key@ == k {
        Some(opt_bytes(ws.last().val))
    } else {
        buffered_read(ws.drop_last(), cf, k)
    }
}

/// Whether the buffer holds a write to `(cf, k)`.
pub open spec fn writes_key(ws: Seq<WriteOp>, cf: Seq<u8>, k: Seq<u8>) -> bool {
    buffered_read(ws, cf, k) is Some
}

/// Whether some buffered write conflicts: its key was stamped in `db` at or
/// after `begin_seq` by someone else's write.
pub open spec fn has_conflict(db: Database, ws: Seq<WriteOp>, begin_seq: u64) -> bool {
    exists|w: int|
        0 <= w < ws.len() && (#[trigger] db.cf_stamp(ws[w].cf@, ws[w].key@)) >= begin_seq
}

/// The live contents of column family `cf` after applying the buffered
/// writes in order on top of `m`.
pub open spec fn apply_writes(m: Map<Seq<u8>, Seq<u8>>, ws: Seq<WriteOp>, cf: Seq<u8>) -> Map<
    Seq<u8>,
    Seq<u8>,
>
    decreases ws.len(),
{
    if ws.len() == 0 {
        m
    } else {
        let prev = apply_writes(m, ws.drop_last(), cf);
        if ws.last().cf@ == cf {
            match ws.last().val {
                Some(v) => prev.insert(ws.last().key@, v@),
                None => prev.remove(ws.last().key@),
            }
        } else {
            prev
        }
    }
}

impl Registry {
    /// Whether `t` names an issued transaction.
    pub open spec fn txn_valid(self, t: TxnHandle) -> bool {
        t.id < self.txns@.len()
    }

    /// The transaction `t` names.
    pub open spec fn txn_at(self, t: TxnHandle) -> Txn {
        self.txns@[t.id as int]
    }

    /// Begins an optimistic transaction against the database `h` names.
    pub fn begin(&mut self, h: DbHandle) -> (r: Result<TxnHandle, KvError>)
        requires
            old(self).wf(),
        ensures
            final(self).wf(),
            final(self).dbs == old(self).dbs,
            final(self).cursors == old(self).cursors,
            final(self).default_db == old(self).default_db,
            match r {
                Ok(t) => {
                    &&& old(self).db_live(h)
                    &&& t.id == old(self).txns@.len()
                    &&& final(self).txns@.len() == old(self).txns@.len() + 1
                    &&& forall|j: int|
                        0 <= j < old(self).txns@.len() ==> final(self).txns@[j] == old(self).txns@[j]
                    &&& final(self).txn_at(t).db == h
                    &&& final(self).txn_at(t).status == TxnStatus::Active
                    &&& final(self).txn_at(t).begin_seq == old(self).db_at(h).next_seq
                    &&& final(self).txn_at(t).writes@.len() == 0
                },
                Err(e) => {
                    &&& *final(self) == *old(self)
                    &&& e is InvalidHandle
                    &&& !old(self).db_live(h)
                },
            },
    {
        if h.id >= self.dbs.len() {
            return Err(KvError::InvalidHandle);
        }
        if !self.dbs[h.id].alive {
            return Err(KvError::InvalidHandle);
        }
        let t = TxnHandle { id: self.txns.len() };
        let txn = Txn {
            db: h,
            status: TxnStatus::Active,
            begin_seq: self.dbs[h.id].next_seq,
            writes: Vec::new(),
        };
        self.txns.push(txn);
        Ok(t)
    }

    /// Buffers `key` = `value` (or, with `value` `None`, a deletion) in the
    /// transaction `t`. The database itself does not change: buffered
    /// writes are invisible outside the transaction until commit.
    pub fn txn_write_cf(&mut self, t: TxnHandle, cf: &Vec<u8>, key: &Vec<u8>, value: Option<
        Vec<u8>,
    >) -> (r: Result<(), KvError>)
        requires
            old(self).wf(),
        ensures
            final(self).wf(),
            final(self).dbs == old(self).dbs,
            final(self).cursors == old(self).cursors,
            final(self).default_db == old(self).default_db,
            r is Ok <==> (old(self).txn_valid(t) && old(self).txn_at(t).status
                == TxnStatus::Active && old(self).db_at(old(self).txn_at(t).db).has_cf(cf@)),
            match r {
                Ok(()) => {
                    &&& old(self).txn_valid(t)
                    &&& old(self).txn_at(t).status == TxnStatus::Active
                    &&& old(self).db_at(old(self).txn_at(t).db).has_cf(cf@)
                    &&& final(self).txns@.len() == old(self).txns@.len()
                    &&& forall|j: int|
                        0 <= j < old(self).txns@.len() && j != t.id ==> final(self).txns@[j]
                            == old(self).txns@[j]
                    &&& final(self).txn_at(t).db == old(self).txn_at(t).db
                    &&& final(self).txn_at(t).status == TxnStatus::Active
                    &&& final(self).txn_at(t).begin_seq == old(self).txn_at(t).begin_seq
                    &&& final(self).txn_at(t).writes@.len() == old(self).txn_at(t).writes@.len()
                        + 1
                    &&& forall|j: int|
                        0 <= j < old(self).txn_at(t).writes@.len() ==> final(self).txn_at(
                            t,
                        ).writes@[j] == old(self).txn_at(t).writes@[j]
                    &&& final(self).txn_at(t).writes@.last().cf@ == cf@
                    &&& final(self).txn_at(t).writes@.last().key@ == key@
                    &&& opt_bytes(final(self).txn_at(t).writes@.last().val) == opt_bytes(value)
                },
                Err(e) => {
                    &&& *final(self) == *old(self)
                    &&& (e is InvalidHandle <==> !old(self).txn_valid(t))
                    &&& (e is TransactionConsumed <==> (old(self).txn_valid(t) && old(self).txn_at(t).status != TxnStatus::Active))
                    &&& (e is NotFound <==> (old(self).txn_valid(t) && old(self).txn_at(t).status
                        == TxnStatus::Active && !old(self).db_at(old(self).txn_at(t).db).has_cf(
                        cf@,
                    )))
                },
            },
    {
        if t.id >= self.txns.len() {
            return Err(KvError::InvalidHandle);
        }
        match self.txns[t.id].status {
            TxnStatus::Active => {},
            _ => {
                return Err(KvError::TransactionConsumed);
            },
        }
        let d = self.txns[t.id].db;
        if self.dbs[d.id].find_cf(cf).is_none() {
            return Err(KvError::NotFound);
        }
        let op = WriteOp { cf: copy_bytes(cf), key: copy_bytes(key), val: value };
        self.txns[t.id].writes.push(op);
        proof {
            assert forall|tt: int, w: int|
                0 <= tt < self.txns@.len() && 0 <= w < self.txns@[tt].writes@.len()
                    implies self.dbs@[self.txns@[tt].db.id as int].has_cf(
                (#[trigger] self.txns@[tt].writes@[w]).cf@,
            ) by {
                if tt == t.id {
                    if w < old(self).txns@[tt].writes@.len() {
                        assert(self.txns@[tt].writes@[w] == old(self).txns@[tt].writes@[w]);
                        assert(old(self).dbs@[old(self).txns@[tt].db.id as int].has_cf(
                            old(self).txns@[tt].writes@[w].cf@,
                        ));
                    } else {
                        assert(self.txns@[tt].writes@[w].cf@ == cf@);
                    }
                } else {
                    assert(self.txns@[tt] == old(self).txns@[tt]);
                    assert(old(self).dbs@[old(self).txns@[tt].db.id as int].has_cf(
                        old(self).txns@[tt].writes@[w].cf@,
                    ));
                }
            }
        }
        Ok(())
    }

    /// Buffers `key` = `value` in the transaction `t`, scoped to the column
    /// family `cf`.
    pub fn transaction_put_cf(&mut self, t: TxnHandle, cf: &Vec<u8>, key: &Vec<u8>, value: &Vec<
        u8,
    >) -> (r: Result<(), KvError>)
        requires
            old(self).wf(),
        ensures
            final(self).wf(),
            final(self).dbs == old(self).dbs,
            final(self).cursors == old(self).cursors,
            final(self).default_db == old(self).default_db,
            r is Ok <==> (old(self).txn_valid(t) && old(self).txn_at(t).status
                == TxnStatus::Active && old(self).db_at(old(self).txn_at(t).db).has_cf(cf@)),
            match r {
                Ok(()) => {
                    &&& old(self).txn_valid(t)
                    &&& old(self).txn_at(t).status == TxnStatus::Active
                    &&& old(self).db_at(old(self).txn_at(t).db).has_cf(cf@)
                    &&& final(self).txns@.len() == old(self).txns@.len()
                    &&& forall|j: int|
                        0 <= j < old(self).txns@.len() && j != t.id ==> final(self).txns@[j]
                            == old(self).txns@[j]
                    &&& final(self).txn_at(t).db == old(self).txn_at(t).db
                    &&& final(self).txn_at(t).status == TxnStatus::Active
                    &&& final(self).txn_at(t).begin_seq == old(self).txn_at(t).begin_seq
                    &&& final(self).txn_at(t).writes@ == old(self).txn_at(t).writes@.push(
                        final(self).txn_at(t).writes@.last(),
                    )
                    &&& final(self).txn_at(t).writes@.last().cf@ == cf@
                    &&& final(self).txn_at(t).writes@.last().key@ == key@
                    &&& opt_bytes(final(self).txn_at(t).writes@.last().val) == Some(value@)
                },
                Err(e) => {
                    &&& *final(self) == *old(self)
                    &&& (e is InvalidHandle <==> !old(self).txn_valid(t))
                    &&& (e is TransactionConsumed <==> (old(self).txn_valid(t) && old(self).txn_at(t).status != TxnStatus::Active))
                    &&& (e is NotFound <==> (old(self).txn_valid(t) && old(self).txn_at(t).status
                        == TxnStatus::Active && !old(self).db_at(old(self).txn_at(t).db).has_cf(
                        cf@,
                    )))
                },
            },
    {
        let r = self.txn_write_cf(t, cf, key, Some(copy_bytes(value)));
        proof {
            if r is Ok {
                assert(self.txn_at(t).writes@ =~= old(self).txn_at(t).writes@.push(
                    self.txn_at(t).writes@.last(),
                ));
            }
        }
        r
    }

    /// Buffers a deletion of `key` in the transaction `t`, scoped to the
    /// column family `cf`.
    pub fn transaction_delete_cf(&mut self, t: TxnHandle, cf: &Vec<u8>, key: &Vec<u8>) -> (r:
        Result<(), KvError>)
        requires
            old(self).wf(),
        ensures
            final(self).wf(),
            final(self).dbs == old(self).dbs,
            final(self).cursors == old(self).cursors,
            final(self).default_db == old(self).default_db,
            r is Ok <==> (old(self).txn_valid(t) && old(self).txn_at(t).status
                == TxnStatus::Active && old(self).db_at(old(self).txn_at(t).db).has_cf(cf@)),
            match r {
                Ok(()) => {
                    &&& old(self).txn_valid(t)
                    &&& old(self).txn_at(t).status == TxnStatus::Active
                    &&& old(self).db_at(old(self).txn_at(t).db).has_cf(cf@)
                    &&& final(self).txns@.len() == old(self).txns@.len()
                    &&& forall|j: int|
                        0 <= j < old(self).txns@.len() && j != t.id ==> final(self).txns@[j]
                            == old(self).txns@[j]
                    &&& final(self).txn_at(t).db == old(self).txn_at(t).db
                    &&& final(self).txn_at(t).status == TxnStatus::Active
                    &&& final(self).txn_at(t).begin_seq == old(self).txn_at(t).begin_seq
                    &&& final(self).txn_at(t).writes@ == old(self).txn_at(t).writes@.push(
                        final(self).txn_at(t).writes@.last(),
                    )
                    &&& final(self).txn_at(t).writes@.last().cf@ == cf@
                    &&& final(self).txn_at(t).writes@.last().key@ == key@
                    &&& final(self).txn_at(t).writes@.last().val is None
                },
                Err(e) => {
                    &&& *final(self) == *old(self)
                    &&& (e is InvalidHandle <==> !old(self).txn_valid(t))
                    &&& (e is TransactionConsumed <==> (old(self).txn_valid(t) && old(self).txn_at(t).status != TxnStatus::Active))
                    &&& (e is NotFound <==> (old(self).txn_valid(t) && old(self).txn_at(t).status
                        == TxnStatus::Active && !old(self).db_at(old(self).txn_at(t).db).has_cf(
                        cf@,
                    )))
                },
            },
    {
        let r = self.txn_write_cf(t, cf, key, None);
        proof {
            if r is Ok {
                assert(self.txn_at(t).writes@ =~= old(self).txn_at(t).writes@.push(
                    self.txn_at(t).writes@.last(),
                ));
            }
        }
        r
    }

    /// Reads `key` through the transaction `t`: its own buffered write if
    /// one exists, the database's live value otherwise.
    pub fn transaction_get_cf(&self, t: TxnHandle, cf: &Vec<u8>, key: &Vec<u8>) -> (r: Result<
        Option<Vec<u8>>,
        KvError,
    >)
        requires
            self.wf(),
        ensures
            r is Ok <==> (self.txn_valid(t) && self.txn_at(t).status == TxnStatus::Active
                && self.db_at(self.txn_at(t).db).has_cf(cf@)),
            match r {
                Ok(v) => {
                    &&& self.txn_valid(t)
                    &&& self.txn_at(t).status == TxnStatus::Active
                    &&& self.db_at(self.txn_at(t).db).has_cf(cf@)
                    &&& opt_bytes(v) == (match buffered_read(self.txn_at(t).writes@, cf@, key@) {
                        Some(b) => b,
                        None => if self.db_at(self.txn_at(t).db).cf_map(cf@).contains_key(key@) {
                            Some(self.db_at(self.txn_at(t).db).cf_map(cf@)[key@])
                        } else {
                            None
                        },
                    })
                },
                Err(e) => {
                    &&& (e is InvalidHandle <==> !self.txn_valid(t))
                    &&& (e is TransactionConsumed <==> (self.txn_valid(t) && self.txn_at(t).status
                        != TxnStatus::Active))
                    &&& (e is NotFound <==> (self.txn_valid(t) && self.txn_at(t).status
                        == TxnStatus::Active && !self.db_at(self.txn_at(t).db).has_cf(cf@)))
                },
            },
    {
        if t.id >= self.txns.len() {
            return Err(KvError::InvalidHandle);
        }
        match self.txns[t.id].status {
            TxnStatus::Active => {},
            _ => {
                return Err(KvError::TransactionConsumed);
            },
        }
        let d = self.txns[t.id].db;
        if self.dbs[d.id].find_cf(cf).is_none() {
            return Err(KvError::NotFound);
        }
        let ws = &self.txns[t.id].writes;
        let mut w: usize = ws.len();
        proof {
            assert(ws@.take(ws@.len() as int) =~= ws@);
        }
        while w > 0
            invariant
                w <= ws@.len(),
                self.wf(),
                self.txn_valid(t),
                self.txn_at(t).status == TxnStatus::Active,
                d == self.txn_at(t).db,
                self.db_at(d).has_cf(cf@),
                buffered_read(self.txn_at(t).writes@, cf@, key@) == buffered_read(
                    ws@.take(w as int),
                    cf@,
                    key@,
                ),
                ws@ == self.txn_at(t).writes@,
            decreases w,
        {
            w -= 1;
            proof {
                assert(ws@.take(w as int + 1).drop_last() =~= ws@.take(w as int));
                assert(ws@.take(w as int + 1).last() == ws@[w as int]);
            }
            let op = &ws[w];
            if crate::keys::key_eq(&op.cf, cf) && crate::keys::key_eq(&op.key, key) {
                match &op.val {
                    Some(v) => {
                        return Ok(Some(copy_bytes(v)));
                    },
                    None => {
                        return Ok(None);
                    },
                }
            }
        }
        proof {
            assert(ws@.take(0) =~= Seq::<WriteOp>::empty());
        }
        self.dbs[d.id].lookup(cf, key)
    }
}


/// Extending the scanned prefix of a write buffer by one write either finds
/// a conflict in that write or keeps the verdict of the prefix.
proof fn lemma_conflict_step(db: Database, ws: Seq<WriteOp>, w: int, begin: u64)
    requires
        0 <= w < ws.len(),
    ensures
        has_conflict(db, ws.take(w + 1), begin) == (has_conflict(db, ws.take(w), begin)
            || db.cf_stamp(ws[w].cf@, ws[w].key@) >= begin),
{
    let p0 = ws.take(w);
    let p1 = ws.take(w + 1);
    assert(forall|x: int| 0 <= x < w ==> p1[x] == ws[x] && p0[x] == ws[x]);
    assert(p1[w] == ws[w]);
    if has_conflict(db, p0, begin) {
        let x = choose|x: int|
            0 <= x < p0.len() && (#[trigger] db.cf_stamp(p0[x].cf@, p0[x].key@)) >= begin;
        assert(db.cf_stamp(p1[x].cf@, p1[x].key@) >= begin);
    }
    if db.cf_stamp(ws[w].cf@, ws[w].key@) >= begin {
        assert(db.cf_stamp(p1[w].cf@, p1[w].key@) >= begin);
    }
    if has_conflict(db, p1, begin) {
        let x = choose|x: int|
            0 <= x < p1.len() && (#[trigger] db.cf_stamp(p1[x].cf@, p1[x].key@)) >= begin;
        if x < w {
            assert(db.cf_stamp(p0[x].cf@, p0[x].key@) >= begin);
        }
    }
}

impl Registry {
    /// Commits the transaction `t`: every buffered write's key is checked
    /// for a write stamped since the transaction began, and only a clean
    /// buffer is applied, atomically under one sequence stamp. Success and
    /// failure both consume the transaction: the underlying object is
    /// single-shot, so a later call finds it consumed.
    pub fn commit(&mut self, t: TxnHandle) -> (r: Result<(), KvError>)
        requires
            old(self).wf(),
        ensures
            final(self).wf(),
            final(self).cursors == old(self).cursors,
            final(self).default_db == old(self).default_db,
            r is Ok <==> (old(self).txn_valid(t) && old(self).txn_at(t).status
                == TxnStatus::Active && old(self).db_live(old(self).txn_at(t).db)
                && !has_conflict(
                old(self).db_at(old(self).txn_at(t).db),
                old(self).txn_at(t).writes@,
                old(self).txn_at(t).begin_seq,
            ) && old(self).db_at(old(self).txn_at(t).db).next_seq < u64::MAX),
            match r {
                Ok(()) => {
                    &&& final(self).txns@.len() == old(self).txns@.len()
                    &&& forall|j: int|
                        0 <= j < old(self).txns@.len() && j != t.id ==> final(self).txns@[j]
                            == old(self).txns@[j]
                    &&& final(self).txn_at(t).status == TxnStatus::Committed
                    &&& final(self).txn_at(t).db == old(self).txn_at(t).db
                    &&& final(self).txn_at(t).begin_seq == old(self).txn_at(t).begin_seq
                    &&& final(self).txn_at(t).writes == old(self).txn_at(t).writes
                    &&& final(self).dbs@.len() == old(self).dbs@.len()
                    &&& forall|j: int|
                        0 <= j < old(self).dbs@.len() && j != old(self).txn_at(t).db.id
                            ==> final(self).dbs@[j] == old(self).dbs@[j]
                    &&& final(self).db_live(old(self).txn_at(t).db)
                    &&& final(self).db_at(old(self).txn_at(t).db).next_seq == old(self).db_at(
                        old(self).txn_at(t).db,
                    ).next_seq + 1
                    &&& forall|n: Seq<u8>|
                        #[trigger] final(self).db_at(old(self).txn_at(t).db).has_cf(n) == old(self).db_at(old(self).txn_at(t).db).has_cf(n)
                    &&& forall|n: Seq<u8>|
                        old(self).db_at(old(self).txn_at(t).db).has_cf(n) ==> #[trigger] final(self).db_at(old(self).txn_at(t).db).cf_map(n) == apply_writes(
                            old(self).db_at(old(self).txn_at(t).db).cf_map(n),
                            old(self).txn_at(t).writes@,
                            n,
                        )
                    &&& forall|n: Seq<u8>, k: Seq<u8>|
                        old(self).db_at(old(self).txn_at(t).db).has_cf(n) ==> #[trigger] final(self).db_at(old(self).txn_at(t).db).cf_stamp(n, k) == (if writes_key(
                            old(self).txn_at(t).writes@,
                            n,
                            k,
                        ) {
                            old(self).db_at(old(self).txn_at(t).db).next_seq
                        } else {
                            old(self).db_at(old(self).txn_at(t).db).cf_stamp(n, k)
                        })
                },
                Err(e) => {
                    &&& (e is InvalidHandle <==> (!old(self).txn_valid(t) || (old(self).txn_at(
                        t,
                    ).status == TxnStatus::Active && !old(self).db_live(old(self).txn_at(t).db))))
                    &&& (e is TransactionConsumed <==> (old(self).txn_valid(t) && old(self).txn_at(t).status != TxnStatus::Active))
                    &&& (e is Engine <==> (old(self).txn_valid(t) && old(self).txn_at(t).status
                        == TxnStatus::Active && old(self).db_live(old(self).txn_at(t).db) && (
                    has_conflict(
                        old(self).db_at(old(self).txn_at(t).db),
                        old(self).txn_at(t).writes@,
                        old(self).txn_at(t).begin_seq,
                    ) || old(self).db_at(old(self).txn_at(t).db).next_seq == u64::MAX)))
                    &&& (e is Engine ==> {
                        &&& final(self).dbs@ == old(self).dbs@
                        &&& final(self).txns@.len() == old(self).txns@.len()
                        &&& forall|j: int|
                            0 <= j < old(self).txns@.len() && j != t.id ==> final(self).txns@[j]
                                == old(self).txns@[j]
                        &&& final(self).txn_at(t).status == TxnStatus::Failed
                        &&& final(self).txn_at(t).db == old(self).txn_at(t).db
                        &&& final(self).txn_at(t).begin_seq == old(self).txn_at(t).begin_seq
                        &&& final(self).txn_at(t).writes == old(self).txn_at(t).writes
                    })
                    &&& (!(e is Engine) ==> final(self).state_eq(*old(self)))
                },
            },
    {
        if t.id >= self.txns.len() {
            return Err(KvError::InvalidHandle);
        }
        match self.txns[t.id].status {
            TxnStatus::Active => {},
            _ => {
                return Err(KvError::TransactionConsumed);
            },
        }
        let d = self.txns[t.id].db;
        if !self.dbs[d.id].alive {
            return Err(KvError::InvalidHandle);
        }
        let begin = self.txns[t.id].begin_seq;
        let ghost ws = self.txn_at(t).writes@;
        let ghost db0 = self.db_at(d);
        let mut conflict = false;
        let mut w: usize = 0;
        proof {
            assert(ws.take(0) =~= Seq::<WriteOp>::empty());
        }
        while w < self.txns[t.id].writes.len()
            invariant
                self.wf(),
                *self == *old(self),
                t.id < self.txns@.len(),
                d == self.txn_at(t).db,
                d.id < self.dbs@.len(),
                begin == self.txn_at(t).begin_seq,
                ws == self.txn_at(t).writes@,
                db0 == self.db_at(d),
                w <= ws.len(),
                conflict == has_conflict(db0, ws.take(w as int), begin),
            decreases ws.len() - w,
        {
            let stamp = self.dbs[d.id].stamp_of(&self.txns[t.id].writes[w].cf, &self.txns[t.id].writes[w].key);
            proof {
                lemma_conflict_step(db0, ws, w as int, begin);
            }
            if stamp >= begin {
                proof {
                    assert(db0.has_cf(ws[w as int].cf@));
                }
                conflict = true;
                proof {
                    assert(has_conflict(db0, ws.take(w as int + 1), begin));
                }
            }
            w += 1;
        }
        proof {
            assert(ws.take(ws.len() as int) =~= ws);
        }
        if conflict {
            self.txns[t.id].status = TxnStatus::Failed;
            return Err(KvError::engine("commit conflict"));
        }
        if self.dbs[d.id].next_seq == u64::MAX {
            self.txns[t.id].status = TxnStatus::Failed;
            return Err(KvError::engine("sequence space exhausted"));
        }
        let s = self.dbs[d.id].next_seq;
        self.dbs[d.id].next_seq = s + 1;
        proof {
            assert(self.dbs@[d.id as int].wf()) by {
                assert(forall|j: int, k: Seq<u8>|
                    0 <= j < self.dbs@[d.id as int].cfs@.len() ==> (
                    #[trigger] self.dbs@[d.id as int].cfs@[j].ks.stamp(k)) < self.dbs@[d.id
                        as int].next_seq);
            }
        }
        let mut w2: usize = 0;
        proof {
            assert(ws.take(0) =~= Seq::<WriteOp>::empty());
        }
        while w2 < self.txns[t.id].writes.len()
            invariant
                self.wf(),
                t.id < self.txns@.len(),
                self.txns == old(self).txns,
                self.cursors == old(self).cursors,
                self.default_db == old(self).default_db,
                d == self.txn_at(t).db,
                d.id < self.dbs@.len(),
                ws == self.txn_at(t).writes@,
                self.txn_at(t).status == TxnStatus::Active,
                db0 == old(self).db_at(d),
                s == db0.next_seq,
                s < u64::MAX,
                w2 <= ws.len(),
                self.dbs@.len() == old(self).dbs@.len(),
                forall|j: int|
                    0 <= j < old(self).dbs@.len() && j != d.id ==> self.dbs@[j] == old(self).dbs@[j],
                self.db_at(d).alive == db0.alive,
                self.db_at(d).path == db0.path,
                self.db_at(d).next_seq == s + 1,
                forall|n: Seq<u8>| #[trigger] self.db_at(d).has_cf(n) == db0.has_cf(n),
                forall|n: Seq<u8>|
                    db0.has_cf(n) ==> #[trigger] self.db_at(d).cf_map(n) == apply_writes(
                        db0.cf_map(n),
                        ws.take(w2 as int),
                        n,
                    ),
                forall|n: Seq<u8>, k: Seq<u8>|
                    db0.has_cf(n) ==> #[trigger] self.db_at(d).cf_stamp(n, k) == (if writes_key(
                        ws.take(w2 as int),
                        n,
                        k,
                    ) {
                        s
                    } else {
                        db0.cf_stamp(n, k)
                    }),
            decreases ws.len() - w2,
        {
            let cfv = copy_bytes(&self.txns[t.id].writes[w2].cf);
            let keyv = copy_bytes(&self.txns[t.id].writes[w2].key);
            let valv: Option<Vec<u8>> = match &self.txns[t.id].writes[w2].val {
                Some(v) => Some(copy_bytes(v)),
                None => None,
            };
            let ghost pre_db = self.db_at(d);
            proof {
                assert(self.db_at(d).has_cf(cfv@)) by {
                    assert(self.dbs@[self.txns@[t.id as int].db.id as int].has_cf(
                        self.txns@[t.id as int].writes@[w2 as int].cf@,
                    ));
                }
            }
            self.dbs[d.id].apply_stamped(&cfv, &keyv, valv, s);
            proof {
                let p0 = ws.take(w2 as int);
                let p1 = ws.take(w2 as int + 1);
                assert(p1.drop_last() =~= p0);
                assert(p1.last() == ws[w2 as int]);
                assert forall|n: Seq<u8>| db0.has_cf(n) implies #[trigger] self.db_at(d).cf_map(n)
                    == apply_writes(db0.cf_map(n), p1, n) by {
                    if n == cfv@ {
                        assert(apply_writes(db0.cf_map(n), p1, n) == (match ws[w2 as int].val {
                            Some(v) => apply_writes(db0.cf_map(n), p0, n).insert(
                                ws[w2 as int].key@,
                                v@,
                            ),
                            None => apply_writes(db0.cf_map(n), p0, n).remove(
                                ws[w2 as int].key@,
                            ),
                        }));
                        assert(pre_db.cf_map(n) == apply_writes(db0.cf_map(n), p0, n));
                    } else {
                        assert(apply_writes(db0.cf_map(n), p1, n) == apply_writes(
                            db0.cf_map(n),
                            p0,
                            n,
                        ));
                        assert(self.db_at(d).cf_map(n) == pre_db.cf_map(n));
                    }
                }
                assert forall|n: Seq<u8>, k: Seq<u8>| db0.has_cf(n) implies #[trigger] self.db_at(
                    d,
                ).cf_stamp(n, k) == (if writes_key(p1, n, k) {
                    s
                } else {
                    db0.cf_stamp(n, k)
                }) by {
                    if n == cfv@ && k == keyv@ {
                        assert(buffered_read(p1, n, k) == Some(opt_bytes(ws[w2 as int].val)));
                    } else {
                        assert(buffered_read(p1, n, k) == buffered_read(p0, n, k));
                        assert(self.db_at(d).cf_stamp(n, k) == pre_db.cf_stamp(n, k));
                    }
                }
                assert forall|tt: int, x: int|
                    0 <= tt < self.txns@.len() && 0 <= x < self.txns@[tt].writes@.len()
                        implies self.dbs@[self.txns@[tt].db.id as int].has_cf(
                    (#[trigger] self.txns@[tt].writes@[x]).cf@,
                ) by {
                    let dd = self.txns@[tt].db.id as int;
                    if dd == d.id {
                        assert(old(self).dbs@[dd].has_cf(old(self).txns@[tt].writes@[x].cf@));
                    } else {
                        assert(self.dbs@[dd] == old(self).dbs@[dd]);
                    }
                }
            }
            w2 += 1;
        }
        proof {
            assert(ws.take(ws.len() as int) =~= ws);
        }
        self.txns[t.id].status = TxnStatus::Committed;
        Ok(())
    }

    /// Rolls the transaction `t` back: the buffered writes are discarded,
    /// the database is untouched, and the transaction is consumed.
    pub fn rollback(&mut self, t: TxnHandle) -> (r: Result<(), KvError>)
        requires
            old(self).wf(),
        ensures
            final(self).wf(),
            final(self).dbs == old(self).dbs,
            final(self).cursors == old(self).cursors,
            final(self).default_db == old(self).default_db,
            r is Ok <==> (old(self).txn_valid(t) && old(self).txn_at(t).status
                == TxnStatus::Active),
            match r {
                Ok(()) => {
                    &&& final(self).txns@.len() == old(self).txns@.len()
                    &&& forall|j: int|
                        0 <= j < old(self).txns@.len() && j != t.id ==> final(self).txns@[j]
                            == old(self).txns@[j]
                    &&& final(self).txn_at(t).status == TxnStatus::RolledBack
                    &&& final(self).txn_at(t).db == old(self).txn_at(t).db
                    &&& final(self).txn_at(t).begin_seq == old(self).txn_at(t).begin_seq
                    &&& final(self).txn_at(t).writes == old(self).txn_at(t).writes
                },
                Err(e) => {
                    &&& *final(self) == *old(self)
                    &&& (e is InvalidHandle <==> !old(self).txn_valid(t))
                    &&& (e is TransactionConsumed <==> (old(self).txn_valid(t) && old(self).txn_at(t).status != TxnStatus::Active))
                },
            },
    {
        if t.id >= self.txns.len() {
            return Err(KvError::InvalidHandle);
        }
        match self.txns[t.id].status {
            TxnStatus::Active => {},
            _ => {
                return Err(KvError::TransactionConsumed);
            },
        }
        self.txns[t.id].status = TxnStatus::RolledBack;
        Ok(())
    }
}

/// What a committed buffer reads as, key by key: a buffered put of (k, v)
/// is visible as v after the apply, a buffered deletion hides k, and a key
/// the buffer never touched keeps its prior value — so a put inside a
/// transaction, invisible before commit, is exactly what a read sees after
/// commit.
pub proof fn lemma_apply_writes_read(m: Map<Seq<u8>, Seq<u8>>, ws: Seq<WriteOp>, cf: Seq<u8>, k: Seq<u8>)
    ensures
        apply_writes(m, ws, cf).contains_key(k) == (match buffered_read(ws, cf, k) {
            Some(v) => v is Some,
            None => m.contains_key(k),
        }),
        apply_writes(m, ws, cf).contains_key(k) ==> apply_writes(m, ws, cf)[k] == (
        match buffered_read(ws, cf, k) {
            Some(v) => v->0,
            None => m[k],
        }),
    decreases ws.len(),
{
    if ws.len() > 0 {
        lemma_apply_writes_read(m, ws.drop_last(), cf, k);
    }
}

/// Two transactions that both buffered a write to one key: once the first
/// committer has stamped that key at or past the other's begin point, the
/// other's commit finds a conflict.
pub proof fn lemma_second_commit_conflicts(db: Database, ws: Seq<WriteOp>, begin: u64, w: int)
    requires
        0 <= w < ws.len(),
        db.cf_stamp(ws[w].cf@, ws[w].key@) >= begin,
    ensures
        has_conflict(db, ws, begin),
{
}

} // verus!
