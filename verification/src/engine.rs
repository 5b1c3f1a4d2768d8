//! The model of the storage engine this layer manages: per column family an
//! ordered keyspace of byte-string keys. Every slot carries the sequence
//! stamp of its last write, deletions included, which is what optimistic
//! commit-time conflict detection reads; a deleted key stays behind as a
//! stamped tombstone.

use vstd::prelude::*;

use crate::keys::{copy_bytes, key_eq, key_lt, lex_lt, KvPair};
use crate::keys::{lemma_lex_lt_connected, lemma_lex_lt_irreflexive, lemma_lex_lt_transitive};

verus! {

/// The bytes of "default", the column family every database has.
pub open spec fn default_cf() -> Seq<u8> {
    seq![100u8, 101, 102, 97, 117, 108, 116]
}

/// "default" as a byte vector.
pub fn default_cf_name() -> (r: Vec<u8>)
    ensures
        r@ == default_cf(),
{
    let r: Vec<u8> = vec![100u8, 101, 102, 97, 117, 108, 116];
    proof {
        assert(r@ =~= default_cf());
    }
    r
}

/// One keyspace slot: a key, its value or a tombstone, and the sequence
/// stamp of the last write to the key.
pub struct Slot {
    pub key: Vec<u8>,
    pub val: Option<Vec<u8>>,
    pub seq: u64,
}

/// The value of an optional byte buffer, as an optional byte sequence.
pub open spec fn opt_bytes(v: Option<Vec<u8>>) -> Option<Seq<u8>> {
    match v {
        Some(x) => Some(x@),
        None => None,
    }
}

/// One ordered keyspace: slots strictly ascending by key.
pub struct Keyspace {
    pub slots: Vec<Slot>,
}

impl Keyspace {
    /// Well-formed: keys strictly ascending, hence unique.
    pub open spec fn wf(self) -> bool {
        forall|i: int, j: int|
            0 <= i < j < self.slots@.len() ==> lex_lt(
                #[trigger] self.slots@[i].key@,
                #[trigger] self.slots@[j].key@,
            )
    }

    /// Whether some slot (live or tombstone) holds key `k`.
    pub open spec fn has_key(self, k: Seq<u8>) -> bool {
        exists|i: int| 0 <= i < self.slots@.len() && (#[trigger] self.slots@[i].key@) == k
    }

    /// The index of the slot holding `k`.
    pub open spec fn idx_of(self, k: Seq<u8>) -> int {
        choose|i: int| 0 <= i < self.slots@.len() && (#[trigger] self.slots@[i].key@) == k
    }

    /// The slot holding `k`.
    pub open spec fn slot_at(self, k: Seq<u8>) -> Slot {
        self.slots@[self.idx_of(k)]
    }

    /// The live contents: every key with a non-tombstone slot, mapped to its
    /// value.
    pub open spec fn as_map(self) -> Map<Seq<u8>, Seq<u8>> {
        Map::new(
            |k: Seq<u8>| self.has_key(k) && self.slot_at(k).val is Some,
            |k: Seq<u8>| self.slot_at(k).val->0@,
        )
    }

    /// The stamp of the last write to `k`; zero when `k` was never written.
    pub open spec fn stamp(self, k: Seq<u8>) -> u64 {
        if self.has_key(k) {
            self.slot_at(k).seq
        } else {
            0
        }
    }

    /// In a well-formed keyspace the slot index of a key is unique, so any
    /// witness index is the one `idx_of` picks.
    pub proof fn lemma_idx_unique(self, i: int, k: Seq<u8>)
        requires
            self.wf(),
            0 <= i < self.slots@.len(),
            self.slots@[i].key@ == k,
        ensures
            self.has_key(k),
            self.idx_of(k) == i,
    {
        assert(self.has_key(k));
        let j = self.idx_of(k);
        if j != i {
            if j < i {
                assert(lex_lt(self.slots@[j].key@, self.slots@[i].key@));
            } else {
                assert(lex_lt(self.slots@[i].key@, self.slots@[j].key@));
            }
            lemma_lex_lt_irreflexive(k);
        }
    }

    /// The slot index of `key`, if a slot holds it.
    pub fn find(&self, key: &Vec<u8>) -> (r: Option<usize>)
        ensures
            match r {
                Some(i) => i < self.slots@.len() && self.slots@[i as int].key@ == key@,
                None => !self.has_key(key@),
            },
    {
        let mut i: usize = 0;
        while i < self.slots.len()
            invariant
                i <= self.slots@.len(),
                forall|j: int| 0 <= j < i ==> (#[trigger] self.slots@[j].key@) != key@,
            decreases self.slots@.len() - i,
        {
            if key_eq(&self.slots[i].key, key) {
                return Some(i);
            }
            i += 1;
        }
        None
    }

    /// The live value of `key`, if the keyspace holds one.
    pub fn get(&self, key: &Vec<u8>) -> (r: Option<Vec<u8>>)
        requires
            self.wf(),
        ensures
            match r {
                Some(v) => self.as_map().contains_key(key@) && self.as_map()[key@] == v@,
                None => !self.as_map().contains_key(key@),
            },
    {
        match self.find(key) {
            Some(i) => {
                proof {
                    self.lemma_idx_unique(i as int, key@);
                }
                match &self.slots[i].val {
                    Some(v) => Some(copy_bytes(v)),
                    None => None,
                }
            },
            None => None,
        }
    }

    /// The first index whose key is not below `key`: where `key` sits or
    /// would be inserted.
    fn insertion_point(&self, key: &Vec<u8>) -> (r: usize)
        ensures
            r <= self.slots@.len(),
            forall|j: int| 0 <= j < r ==> lex_lt(#[trigger] self.slots@[j].key@, key@),
            r < self.slots@.len() ==> !lex_lt(self.slots@[r as int].key@, key@),
    {
        let mut i: usize = 0;
        while i < self.slots.len()
            invariant
                i <= self.slots@.len(),
                forall|j: int| 0 <= j < i ==> lex_lt(#[trigger] self.slots@[j].key@, key@),
            decreases self.slots@.len() - i,
        {
            if !key_lt(&self.slots[i].key, key) {
                return i;
            }
            i += 1;
        }
        i
    }

    /// Writes `val` (a value, or a tombstone for a deletion) under `key`
    /// with stamp `seq`. The live contents change by exactly this key; the
    /// stamp of this key becomes `seq` and no other stamp moves.
    pub fn upsert(&mut self, key: &Vec<u8>, val: Option<Vec<u8>>, seq: u64)
        requires
            old(self).wf(),
        ensures
            final(self).wf(),
            final(self).as_map() == (match val {
                Some(v) => old(self).as_map().insert(key@, v@),
                None => old(self).as_map().remove(key@),
            }),
            final(self).stamp(key@) == seq,
            forall|k: Seq<u8>| k != key@ ==> final(self).stamp(k) == old(self).stamp(k),
    {
        let ghost gval = opt_bytes(val);
        let i = self.insertion_point(key);
        let replace = if i < self.slots.len() {
            key_eq(&self.slots[i].key, key)
        } else {
            false
        };
        let slot = Slot { key: copy_bytes(key), val, seq };
        if replace {
            self.slots[i] = slot;
            proof {
                self.lemma_upsert_replace(*old(self), i as int, key@, gval, seq);
            }
        } else {
            proof {
                if i < self.slots@.len() {
                    lemma_lex_lt_connected(self.slots@[i as int].key@, key@);
                }
            }
            self.slots.insert(i, slot);
            proof {
                self.lemma_upsert_insert(*old(self), i as int, key@, gval, seq);
            }
        }
        proof {
            match gval {
                Some(v) => {
                    assert(self.as_map() =~= old(self).as_map().insert(key@, v));
                },
                None => {
                    assert(self.as_map() =~= old(self).as_map().remove(key@));
                },
            }
        }
    }

    /// After replacing the slot at `i` (which held `k`) the keyspace differs
    /// from `pre` in exactly that key.
    proof fn lemma_upsert_replace(self, pre: Keyspace, i: int, k: Seq<u8>, v: Option<Seq<u8>>, seq: u64)
        requires
            pre.wf(),
            0 <= i < pre.slots@.len(),
            pre.slots@[i].key@ == k,
            self.slots@ == pre.slots@.update(i, self.slots@[i]),
            self.slots@[i].key@ == k,
            opt_bytes(self.slots@[i].val) == v,
            self.slots@[i].seq == seq,
        ensures
            self.wf(),
            forall|q: Seq<u8>| q != k ==> self.has_key(q) == pre.has_key(q),
            forall|q: Seq<u8>|
                q != k && pre.has_key(q) ==> #[trigger] self.slot_at(q) == pre.slot_at(q),
            self.has_key(k),
            opt_bytes(self.slot_at(k).val) == v,
            self.slot_at(k).seq == seq,
            forall|q: Seq<u8>| q != k ==> #[trigger] self.stamp(q) == pre.stamp(q),
            self.stamp(k) == seq,
    {
        assert(forall|j: int|
            0 <= j < self.slots@.len() && j != i ==> self.slots@[j] == pre.slots@[j]);
        assert(self.slots@[i].key@ == pre.slots@[i].key@);
        assert(self.wf()) by {
            assert(forall|p: int, q: int|
                0 <= p < q < self.slots@.len() ==> lex_lt(
                    #[trigger] self.slots@[p].key@,
                    #[trigger] self.slots@[q].key@,
                )) by {
                assert(forall|j: int|
                    0 <= j < self.slots@.len() ==> (#[trigger] self.slots@[j].key@)
                        == pre.slots@[j].key@);
            }
        }
        self.lemma_idx_unique(i, k);
        assert forall|q: Seq<u8>| q != k implies self.has_key(q) == pre.has_key(q) by {
            if pre.has_key(q) {
                let j = pre.idx_of(q);
                assert(self.slots@[j].key@ == q);
            }
            if self.has_key(q) {
                let j = self.idx_of(q);
                assert(pre.slots@[j].key@ == q);
            }
        }
        assert forall|q: Seq<u8>| q != k && pre.has_key(q) implies #[trigger] self.slot_at(q)
            == pre.slot_at(q) by {
            let j = pre.idx_of(q);
            pre.lemma_idx_unique(j, q);
            assert(j != i);
            self.lemma_idx_unique(j, q);
        }
        assert forall|q: Seq<u8>| q != k implies #[trigger] self.stamp(q) == pre.stamp(q) by {
            if pre.has_key(q) {
                assert(self.slot_at(q) == pre.slot_at(q));
            }
        }
    }

    /// After inserting a fresh slot for `k` at the boundary position `i`,
    /// the keyspace differs from `pre` in exactly that key.
    proof fn lemma_upsert_insert(self, pre: Keyspace, i: int, k: Seq<u8>, v: Option<Seq<u8>>, seq: u64)
        requires
            pre.wf(),
            0 <= i <= pre.slots@.len(),
            forall|j: int| 0 <= j < i ==> lex_lt(#[trigger] pre.slots@[j].key@, k),
            i < pre.slots@.len() ==> lex_lt(k, pre.slots@[i].key@),
            self.slots@ == pre.slots@.insert(i, self.slots@[i]),
            self.slots@[i].key@ == k,
            opt_bytes(self.slots@[i].val) == v,
            self.slots@[i].seq == seq,
        ensures
            self.wf(),
            forall|q: Seq<u8>| q != k ==> self.has_key(q) == pre.has_key(q),
            forall|q: Seq<u8>|
                q != k && pre.has_key(q) ==> #[trigger] self.slot_at(q) == pre.slot_at(q),
            !pre.has_key(k),
            self.has_key(k),
            opt_bytes(self.slot_at(k).val) == v,
            self.slot_at(k).seq == seq,
            forall|q: Seq<u8>| q != k ==> #[trigger] self.stamp(q) == pre.stamp(q),
            self.stamp(k) == seq,
    {
        let n = pre.slots@.len() as int;
        assert(self.slots@.len() == n + 1);
        assert(forall|j: int| 0 <= j < i ==> self.slots@[j] == pre.slots@[j]);
        assert(forall|j: int| i < j <= n ==> self.slots@[j] == pre.slots@[j - 1]);
        // every key at or past the boundary lies above `k`
        assert forall|j: int| i <= j < n implies lex_lt(k, #[trigger] pre.slots@[j].key@) by {
            if j > i {
                lemma_lex_lt_transitive(k, pre.slots@[i].key@, pre.slots@[j].key@);
            }
        }
        assert forall|j: int| 0 <= j < n implies (#[trigger] pre.slots@[j].key@) != k by {
            if j < i {
                lemma_lex_lt_irreflexive(k);
                if pre.slots@[j].key@ == k {
                    assert(lex_lt(k, k));
                }
            } else {
                lemma_lex_lt_irreflexive(k);
                if pre.slots@[j].key@ == k {
                    assert(lex_lt(k, k));
                }
            }
        }
        assert(!pre.has_key(k));
        assert(self.wf()) by {
            assert forall|p: int, q: int|
                0 <= p < q < self.slots@.len() implies lex_lt(
                #[trigger] self.slots@[p].key@,
                #[trigger] self.slots@[q].key@,
            ) by {
                if q < i {
                } else if p < i && q == i {
                    assert(lex_lt(pre.slots@[p].key@, k));
                } else if p < i && q > i {
                    assert(self.slots@[q].key@ == pre.slots@[q - 1].key@);
                } else if p == i {
                    assert(lex_lt(k, pre.slots@[q - 1].key@));
                } else {
                }
            }
        }
        self.lemma_idx_unique(i, k);
        assert forall|q: Seq<u8>| q != k implies self.has_key(q) == pre.has_key(q) by {
            if pre.has_key(q) {
                let j = pre.idx_of(q);
                if j < i {
                    assert(self.slots@[j].key@ == q);
                } else {
                    assert(self.slots@[j + 1].key@ == q);
                }
            }
            if self.has_key(q) {
                let j = self.idx_of(q);
                if j < i {
                    assert(pre.slots@[j].key@ == q);
                } else {
                    assert(j > i);
                    assert(pre.slots@[j - 1].key@ == q);
                }
            }
        }
        assert forall|q: Seq<u8>| q != k && pre.has_key(q) implies #[trigger] self.slot_at(q)
            == pre.slot_at(q) by {
            let j = pre.idx_of(q);
            pre.lemma_idx_unique(j, q);
            if j < i {
                self.lemma_idx_unique(j, q);
            } else {
                self.lemma_idx_unique(j + 1, q);
            }
        }
        assert forall|q: Seq<u8>| q != k implies #[trigger] self.stamp(q) == pre.stamp(q) by {
            if pre.has_key(q) {
                assert(self.slot_at(q) == pre.slot_at(q));
            }
        }
    }

    /// The live pairs of a slot sequence, in slot order.
    pub open spec fn live_of(slots: Seq<Slot>) -> Seq<(Seq<u8>, Seq<u8>)>
        decreases slots.len(),
    {
        if slots.len() == 0 {
            Seq::empty()
        } else {
            let rest = Self::live_of(slots.drop_last());
            match slots.last().val {
                Some(v) => rest.push((slots.last().key@, v@)),
                None => rest,
            }
        }
    }

    /// The live pairs of this keyspace, ascending by key.
    pub open spec fn live_pairs(self) -> Seq<(Seq<u8>, Seq<u8>)> {
        Self::live_of(self.slots@)
    }

    /// Of a well-formed keyspace, the live pairs are strictly ascending by
    /// key, and each is the pair of some slot.
    pub proof fn lemma_live_props(slots: Seq<Slot>)
        requires
            forall|i: int, j: int|
                0 <= i < j < slots.len() ==> lex_lt(
                    #[trigger] slots[i].key@,
                    #[trigger] slots[j].key@,
                ),
        ensures
            forall|m: int, n: int|
                0 <= m < n < Self::live_of(slots).len() ==> lex_lt(
                    #[trigger] Self::live_of(slots)[m].0,
                    #[trigger] Self::live_of(slots)[n].0,
                ),
            forall|m: int|
                0 <= m < Self::live_of(slots).len() ==> exists|j: int|
                    0 <= j < slots.len() && (#[trigger] Self::live_of(slots)[m]).0
                        == slots[j].key@,
        decreases slots.len(),
    {
        if slots.len() > 0 {
            let pre = slots.drop_last();
            Self::lemma_live_props(pre);
            let lv = Self::live_of(slots);
            let lp = Self::live_of(pre);
            assert(forall|j: int| 0 <= j < pre.len() ==> pre[j] == slots[j]);
            match slots.last().val {
                Some(v) => {
                    assert(lv == lp.push((slots.last().key@, v@)));
                    assert forall|m: int, n: int| 0 <= m < n < lv.len() implies lex_lt(
                        #[trigger] lv[m].0,
                        #[trigger] lv[n].0,
                    ) by {
                        if n < lv.len() - 1 {
                            assert(lv[m] == lp[m] && lv[n] == lp[n]);
                        } else {
                            assert(lv[m] == lp[m]);
                            let j = choose|j: int|
                                0 <= j < pre.len() && (#[trigger] lp[m]).0 == pre[j].key@;
                            assert(lex_lt(slots[j].key@, slots[slots.len() - 1].key@));
                        }
                    }
                },
                None => {
                    assert(lv == lp);
                },
            }
        }
    }

    /// An owned copy of the live pairs, ascending by key.
    pub fn snapshot(&self) -> (r: Vec<KvPair>)
        ensures
            crate::records::pairs_view(r@) == self.live_pairs(),
    {
        let mut r: Vec<KvPair> = Vec::new();
        let mut i: usize = 0;
        proof {
            assert(Self::live_of(self.slots@.take(0)) =~= Seq::<(Seq<u8>, Seq<u8>)>::empty());
            assert(crate::records::pairs_view(r@) =~= Seq::<(Seq<u8>, Seq<u8>)>::empty());
        }
        while i < self.slots.len()
            invariant
                i <= self.slots@.len(),
                crate::records::pairs_view(r@) == Self::live_of(self.slots@.take(i as int)),
            decreases self.slots@.len() - i,
        {
            let ghost prefix = self.slots@.take(i as int);
            let ghost prefix1 = self.slots@.take(i as int + 1);
            proof {
                assert(prefix1.drop_last() =~= prefix);
                assert(prefix1.last() == self.slots@[i as int]);
                assert(Self::live_of(prefix1) == (match self.slots@[i as int].val {
                    Some(v) => Self::live_of(prefix).push((self.slots@[i as int].key@, v@)),
                    None => Self::live_of(prefix),
                }));
            }
            match &self.slots[i].val {
                Some(v) => {
                    let p = KvPair { key: copy_bytes(&self.slots[i].key), val: copy_bytes(v) };
                    r.push(p);
                    proof {
                        assert(crate::records::pairs_view(r@) =~= Self::live_of(prefix).push(
                            (self.slots@[i as int].key@, v@),
                        ));
                    }
                },
                None => {},
            }
            i += 1;
        }
        proof {
            assert(self.slots@.take(self.slots@.len() as int) =~= self.slots@);
        }
        r
    }
}

/// One named column family and its keyspace.
pub struct ColumnFamily {
    pub name: Vec<u8>,
    pub ks: Keyspace,
}

/// One open database: its path, its column families, the next sequence
/// stamp, and whether the handle layer still considers it open.
pub struct Database {
    pub path: Vec<u8>,
    pub cfs: Vec<ColumnFamily>,
    pub next_seq: u64,
    pub alive: bool,
}

impl Database {
    /// Well-formed: keyspaces sorted, names unique, and every stamp below
    /// the next sequence number.
    pub open spec fn wf(self) -> bool {
        &&& forall|i: int| 0 <= i < self.cfs@.len() ==> (#[trigger] self.cfs@[i].ks).wf()
        &&& forall|i: int, j: int|
            0 <= i < j < self.cfs@.len() ==> (#[trigger] self.cfs@[i].name@)
                != (#[trigger] self.cfs@[j].name@)
        &&& 1 <= self.next_seq
        &&& forall|i: int, k: Seq<u8>|
            0 <= i < self.cfs@.len() ==> (#[trigger] self.cfs@[i].ks.stamp(k)) < self.next_seq
    }

    /// Whether a column family named `n` exists.
    pub open spec fn has_cf(self, n: Seq<u8>) -> bool {
        exists|i: int| 0 <= i < self.cfs@.len() && (#[trigger] self.cfs@[i].name@) == n
    }

    /// The index of the column family named `n`.
    pub open spec fn cf_idx(self, n: Seq<u8>) -> int {
        choose|i: int| 0 <= i < self.cfs@.len() && (#[trigger] self.cfs@[i].name@) == n
    }

    /// The keyspace of the column family named `n`.
    pub open spec fn cf_ks(self, n: Seq<u8>) -> Keyspace {
        self.cfs@[self.cf_idx(n)].ks
    }

    /// The live contents of the column family named `n`.
    pub open spec fn cf_map(self, n: Seq<u8>) -> Map<Seq<u8>, Seq<u8>> {
        self.cf_ks(n).as_map()
    }

    /// The last-write stamp of `k` in the column family named `n`.
    pub open spec fn cf_stamp(self, n: Seq<u8>, k: Seq<u8>) -> u64 {
        self.cf_ks(n).stamp(k)
    }

    /// In a well-formed database the index of a column family name is
    /// unique.
    pub proof fn lemma_cf_idx_unique(self, i: int, n: Seq<u8>)
        requires
            self.wf(),
            0 <= i < self.cfs@.len(),
            self.cfs@[i].name@ == n,
        ensures
            self.has_cf(n),
            self.cf_idx(n) == i,
    {
        assert(self.has_cf(n));
        let j = self.cf_idx(n);
        if j != i {
            if j < i {
                assert(self.cfs@[j].name@ != self.cfs@[i].name@);
            } else {
                assert(self.cfs@[i].name@ != self.cfs@[j].name@);
            }
        }
    }

    /// The index of the column family named `name`, if one exists.
    pub fn find_cf(&self, name: &Vec<u8>) -> (r: Option<usize>)
        ensures
            match r {
                Some(i) => i < self.cfs@.len() && self.cfs@[i as int].name@ == name@,
                None => !self.has_cf(name@),
            },
    {
        let mut i: usize = 0;
        while i < self.cfs.len()
            invariant
                i <= self.cfs@.len(),
                forall|j: int| 0 <= j < i ==> (#[trigger] self.cfs@[j].name@) != name@,
            decreases self.cfs@.len() - i,
        {
            if key_eq(&self.cfs[i].name, name) {
                return Some(i);
            }
            i += 1;
        }
        None
    }

    /// A fresh database at `path`: the "default" column family plus one per
    /// distinct name in `cf_names`, all empty, with the sequence counter at
    /// its start.
    pub fn create(path: &Vec<u8>, cf_names: &Vec<Vec<u8>>) -> (r: Database)
        ensures
            r.wf(),
            r.alive,
            r.path@ == path@,
            r.next_seq == 1,
            forall|n: Seq<u8>|
                #[trigger] r.has_cf(n) <==> (n == default_cf() || exists|i: int|
                    0 <= i < cf_names@.len() && (#[trigger] cf_names@[i]@) == n),
            forall|n: Seq<u8>| r.has_cf(n) ==> #[trigger] r.cf_map(n) =~= Map::empty(),
            forall|n: Seq<u8>, k: Seq<u8>| r.has_cf(n) ==> #[trigger] r.cf_stamp(n, k) == 0,
    {
        let mut db = Database {
            path: copy_bytes(path),
            cfs: Vec::new(),
            next_seq: 1,
            alive: true,
        };
        db.cfs.push(ColumnFamily { name: default_cf_name(), ks: Keyspace { slots: Vec::new() } });
        let mut i: usize = 0;
        while i < cf_names.len()
            invariant
                i <= cf_names@.len(),
                db.next_seq == 1,
                db.alive,
                db.path@ == path@,
                forall|j: int| 0 <= j < db.cfs@.len() ==> (#[trigger] db.cfs@[j].ks).slots@.len()
                    == 0,
                forall|p: int, q: int|
                    0 <= p < q < db.cfs@.len() ==> (#[trigger] db.cfs@[p].name@)
                        != (#[trigger] db.cfs@[q].name@),
                db.cfs@.len() >= 1,
                db.cfs@[0].name@ == default_cf(),
                forall|n: Seq<u8>|
                    #[trigger] db.has_cf(n) <==> (n == default_cf() || exists|j: int|
                        0 <= j < i && (#[trigger] cf_names@[j]@) == n),
            decreases cf_names@.len() - i,
        {
            let present = db.find_cf(&cf_names[i]);
            let ghost pre_db = db;
            if present.is_none() {
                db.cfs.push(
                    ColumnFamily { name: copy_bytes(&cf_names[i]), ks: Keyspace { slots: Vec::new() } },
                );
            }
            proof {
                let m = pre_db.cfs@.len() as int;
                if present is None {
                    assert(db.cfs@[m].name@ == cf_names@[i as int]@);
                }
                assert forall|n: Seq<u8>| #[trigger] db.has_cf(n) implies (n == default_cf()
                    || exists|j: int| 0 <= j <= i && (#[trigger] cf_names@[j]@) == n) by {
                    let w = choose|w: int|
                        0 <= w < db.cfs@.len() && (#[trigger] db.cfs@[w].name@) == n;
                    if w < m {
                        assert(pre_db.cfs@[w].name@ == n);
                        assert(pre_db.has_cf(n));
                    } else {
                        assert(cf_names@[i as int]@ == n);
                    }
                }
                assert forall|n: Seq<u8>|
                    (n == default_cf() || exists|j: int|
                        0 <= j <= i && (#[trigger] cf_names@[j]@) == n) implies #[trigger] db.has_cf(
                    n,
                ) by {
                    if n == default_cf() {
                        assert(db.cfs@[0].name@ == n);
                    } else {
                        let j = choose|j: int| 0 <= j <= i && (#[trigger] cf_names@[j]@) == n;
                        if j < i {
                            assert(pre_db.has_cf(n));
                            let w = choose|w: int|
                                0 <= w < pre_db.cfs@.len() && (#[trigger] pre_db.cfs@[w].name@)
                                    == n;
                            assert(db.cfs@[w].name@ == n);
                        } else {
                            match present {
                                Some(ci) => {
                                    assert(db.cfs@[ci as int].name@ == n);
                                },
                                None => {
                                    assert(db.cfs@[m].name@ == n);
                                },
                            }
                        }
                    }
                }
            }
            i += 1;
        }
        proof {
            assert forall|n: Seq<u8>| db.has_cf(n) implies #[trigger] db.cf_map(n)
                =~= Map::empty() by {
                let ci = db.cf_idx(n);
                assert(db.cfs@[ci].ks.slots@.len() == 0);
                assert(forall|k: Seq<u8>| !db.cfs@[ci].ks.has_key(k));
            }
            assert forall|n: Seq<u8>, k: Seq<u8>| db.has_cf(n) implies #[trigger] db.cf_stamp(
                n,
                k,
            ) == 0 by {
                let ci = db.cf_idx(n);
                assert(!db.cfs@[ci].ks.has_key(k));
            }
        }
        db
    }

    /// The last-write stamp of `key` in the column family named `cf`; zero
    /// when the column family or the key was never written.
    pub fn stamp_of(&self, cf: &Vec<u8>, key: &Vec<u8>) -> (r: u64)
        requires
            self.wf(),
        ensures
            r == (if self.has_cf(cf@) {
                self.cf_stamp(cf@, key@)
            } else {
                0u64
            }),
    {
        let ci = match self.find_cf(cf) {
            Some(ci) => ci,
            None => {
                return 0;
            },
        };
        proof {
            self.lemma_cf_idx_unique(ci as int, cf@);
        }
        match self.cfs[ci].ks.find(key) {
            Some(i) => {
                proof {
                    self.cfs@[ci as int].ks.lemma_idx_unique(i as int, key@);
                }
                self.cfs[ci].ks.slots[i].seq
            },
            None => 0,
        }
    }

    /// Applies one already-validated write with a given stamp, leaving the
    /// sequence counter alone: the building block of an atomic commit.
    pub fn apply_stamped(&mut self, cf: &Vec<u8>, key: &Vec<u8>, val: Option<Vec<u8>>, seq: u64)
        requires
            old(self).wf(),
            old(self).has_cf(cf@),
            seq < old(self).next_seq,
        ensures
            final(self).wf(),
            final(self).alive == old(self).alive,
            final(self).path == old(self).path,
            final(self).next_seq == old(self).next_seq,
            final(self).cfs@.len() == old(self).cfs@.len(),
            forall|n: Seq<u8>| #[trigger] final(self).has_cf(n) == old(self).has_cf(n),
            forall|n: Seq<u8>|
                n != cf@ && old(self).has_cf(n) ==> #[trigger] final(self).cf_map(n)
                    == old(self).cf_map(n),
            final(self).cf_map(cf@) == (match val {
                Some(v) => old(self).cf_map(cf@).insert(key@, v@),
                None => old(self).cf_map(cf@).remove(key@),
            }),
            final(self).cf_stamp(cf@, key@) == seq,
            forall|n: Seq<u8>, k: Seq<u8>|
                !(n == cf@ && k == key@) && old(self).has_cf(n)
                    ==> #[trigger] final(self).cf_stamp(n, k) == old(self).cf_stamp(n, k),
    {
        let ci = match self.find_cf(cf) {
            Some(ci) => ci,
            None => {
                proof {
                    assert(false);
                }
                0
            },
        };
        proof {
            self.lemma_cf_idx_unique(ci as int, cf@);
        }
        self.cfs[ci].ks.upsert(key, val, seq);
        proof {
            let pre = *old(self);
            let post = *self;
            assert(post.cfs@.len() == pre.cfs@.len());
            assert(forall|j: int|
                0 <= j < post.cfs@.len() && j != ci ==> post.cfs@[j] == pre.cfs@[j]);
            assert(post.cfs@[ci as int].name@ == cf@);
            assert(post.wf()) by {
                assert forall|j: int, k: Seq<u8>| 0 <= j < post.cfs@.len() implies (
                #[trigger] post.cfs@[j].ks.stamp(k)) < post.next_seq by {
                    if j == ci {
                        if k == key@ {
                        } else {
                            assert(post.cfs@[j].ks.stamp(k) == pre.cfs@[j].ks.stamp(k));
                        }
                    }
                }
                assert(forall|j: int|
                    0 <= j < post.cfs@.len() ==> (#[trigger] post.cfs@[j].name@)
                        == pre.cfs@[j].name@);
            }
            post.lemma_cf_idx_unique(ci as int, cf@);
            assert forall|n: Seq<u8>| #[trigger] post.has_cf(n) == pre.has_cf(n) by {
                assert(forall|j: int|
                    0 <= j < post.cfs@.len() ==> (#[trigger] post.cfs@[j].name@)
                        == pre.cfs@[j].name@);
                if pre.has_cf(n) {
                    let j = pre.cf_idx(n);
                    assert(post.cfs@[j].name@ == n);
                }
                if post.has_cf(n) {
                    let j = post.cf_idx(n);
                    assert(pre.cfs@[j].name@ == n);
                }
            }
            assert forall|n: Seq<u8>| n != cf@ && pre.has_cf(n) implies #[trigger] post.cf_map(n)
                == pre.cf_map(n) by {
                let j = pre.cf_idx(n);
                pre.lemma_cf_idx_unique(j, n);
                assert(j != ci);
                post.lemma_cf_idx_unique(j, n);
            }
            assert forall|n: Seq<u8>, k: Seq<u8>|
                !(n == cf@ && k == key@) && pre.has_cf(n) implies #[trigger] post.cf_stamp(n, k)
                == pre.cf_stamp(n, k) by {
                let j = pre.cf_idx(n);
                pre.lemma_cf_idx_unique(j, n);
                post.lemma_cf_idx_unique(j, n);
                if j == ci {
                    assert(n == cf@ && k != key@);
                } else {
                }
            }
        }
    }

    /// Looks up `key` in the column family named `cf`: the value, `None`
    /// when the key is absent, `NotFound` when the column family is.
    pub fn lookup(&self, cf: &Vec<u8>, key: &Vec<u8>) -> (r: Result<Option<Vec<u8>>, crate::errors::KvError>)
        requires
            self.wf(),
        ensures
            r is Ok <==> self.has_cf(cf@),
            match r {
                Ok(v) => self.has_cf(cf@) && (match v {
                    Some(b) => self.cf_map(cf@).contains_key(key@) && self.cf_map(cf@)[key@]
                        == b@,
                    None => !self.cf_map(cf@).contains_key(key@),
                }),
                Err(e) => !self.has_cf(cf@) && e is NotFound,
            },
    {
        match self.find_cf(cf) {
            Some(ci) => {
                proof {
                    self.lemma_cf_idx_unique(ci as int, cf@);
                }
                Ok(self.cfs[ci].ks.get(key))
            },
            None => Err(crate::errors::KvError::NotFound),
        }
    }

    /// Writes `val` (or, for `None`, a deletion) under `key` in the column
    /// family named `cf`, stamping it with the next sequence number. Exactly
    /// this key in this column family changes; every failure leaves the
    /// database untouched.
    pub fn store(&mut self, cf: &Vec<u8>, key: &Vec<u8>, val: Option<Vec<u8>>) -> (r: Result<
        (),
        crate::errors::KvError,
    >)
        requires
            old(self).wf(),
        ensures
            final(self).wf(),
            r is Ok <==> (old(self).has_cf(cf@) && old(self).next_seq < u64::MAX),
            match r {
                Ok(()) => {
                    &&& old(self).has_cf(cf@)
                    &&& old(self).next_seq < u64::MAX
                    &&& final(self).alive == old(self).alive
                    &&& final(self).path == old(self).path
                    &&& final(self).next_seq == old(self).next_seq + 1
                    &&& final(self).cfs@.len() == old(self).cfs@.len()
                    &&& forall|n: Seq<u8>| #[trigger] final(self).has_cf(n) == old(self).has_cf(n)
                    &&& forall|n: Seq<u8>|
                        n != cf@ && old(self).has_cf(n) ==> #[trigger] final(self).cf_map(n)
                            == old(self).cf_map(n)
                    &&& final(self).cf_map(cf@) == (match val {
                        Some(v) => old(self).cf_map(cf@).insert(key@, v@),
                        None => old(self).cf_map(cf@).remove(key@),
                    })
                    &&& final(self).cf_stamp(cf@, key@) == old(self).next_seq
                    &&& forall|n: Seq<u8>, k: Seq<u8>|
                        !(n == cf@ && k == key@) && old(self).has_cf(n)
                            ==> #[trigger] final(self).cf_stamp(n, k) == old(self).cf_stamp(n, k)
                },
                Err(e) => {
                    &&& *final(self) == *old(self)
                    &&& (e is NotFound <==> !old(self).has_cf(cf@))
                    &&& (e is Engine <==> (old(self).has_cf(cf@) && old(self).next_seq
                        == u64::MAX))
                },
            },
    {
        let ci = match self.find_cf(cf) {
            Some(ci) => ci,
            None => {
                return Err(crate::errors::KvError::NotFound);
            },
        };
        proof {
            self.lemma_cf_idx_unique(ci as int, cf@);
        }
        if self.next_seq == u64::MAX {
            return Err(crate::errors::KvError::engine("sequence space exhausted"));
        }
        let s = self.next_seq;
        self.next_seq = s + 1;
        self.cfs[ci].ks.upsert(key, val, s);
        proof {
            let pre = *old(self);
            let post = *self;
            assert(post.cfs@.len() == pre.cfs@.len());
            assert(forall|j: int|
                0 <= j < post.cfs@.len() && j != ci ==> post.cfs@[j] == pre.cfs@[j]);
            assert(post.cfs@[ci as int].name@ == cf@);
            assert(post.wf()) by {
                assert forall|j: int, k: Seq<u8>| 0 <= j < post.cfs@.len() implies (
                #[trigger] post.cfs@[j].ks.stamp(k)) < post.next_seq by {
                    if j == ci {
                        if k == key@ {
                        } else {
                            assert(post.cfs@[j].ks.stamp(k) == pre.cfs@[j].ks.stamp(k));
                        }
                    }
                }
                assert(forall|j: int|
                    0 <= j < post.cfs@.len() ==> (#[trigger] post.cfs@[j].name@)
                        == pre.cfs@[j].name@);
            }
            post.lemma_cf_idx_unique(ci as int, cf@);
            assert forall|n: Seq<u8>| #[trigger] post.has_cf(n) == pre.has_cf(n) by {
                assert(forall|j: int|
                    0 <= j < post.cfs@.len() ==> (#[trigger] post.cfs@[j].name@)
                        == pre.cfs@[j].name@);
                if pre.has_cf(n) {
                    let j = pre.cf_idx(n);
                    assert(post.cfs@[j].name@ == n);
                }
                if post.has_cf(n) {
                    let j = post.cf_idx(n);
                    assert(pre.cfs@[j].name@ == n);
                }
            }
            assert forall|n: Seq<u8>| n != cf@ && pre.has_cf(n) implies #[trigger] post.cf_map(n)
                == pre.cf_map(n) by {
                let j = pre.cf_idx(n);
                pre.lemma_cf_idx_unique(j, n);
                assert(j != ci);
                post.lemma_cf_idx_unique(j, n);
            }
            assert forall|n: Seq<u8>, k: Seq<u8>|
                !(n == cf@ && k == key@) && pre.has_cf(n) implies #[trigger] post.cf_stamp(n, k)
                == pre.cf_stamp(n, k) by {
                let j = pre.cf_idx(n);
                pre.lemma_cf_idx_unique(j, n);
                post.lemma_cf_idx_unique(j, n);
                if j == ci {
                    assert(n == cf@ && k != key@);
                } else {
                }
            }
        }
        Ok(())
    }
}

} // verus!
