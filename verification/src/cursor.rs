//! The iterator state machine: a cursor is created over a snapshot of one
//! column family, positioned by its mode (from the start, from the end, or
//! from a seek key in either direction), and advanced one pair at a time.
//! Once past the last pair every further advance reports the same exhausted
//! signal; nothing rewinds.

use vstd::prelude::*;

use crate::engine::Keyspace;
use crate::errors::KvError;
use crate::keys::{copy_bytes, key_lt, lex_lt, KvPair};
use crate::options::{mode_spec, parse_iterator_opts, Direction, IterMode, ModeModel, OptEntry};
use crate::records::pairs_view;
use crate::registry::{DbHandle, IterHandle, Registry};

verus! {

/// One cursor resource: its database, the pairs it will yield in order,
/// and how many it has yielded.
pub struct IteratorResource {
    pub db: DbHandle,
    pub yields: Vec<KvPair>,
    pub pos: usize,
}

/// What one advance of a cursor reports: the next key/value pair, or the
/// exhausted signal.
pub enum Step {
    Pair(Vec<u8>, Vec<u8>),
    Finished,
}

/// Keys strictly ascending.
pub open spec fn view_ascending(s: Seq<(Seq<u8>, Seq<u8>)>) -> bool {
    forall|i: int, j: int| 0 <= i < j < s.len() ==> lex_lt(#[trigger] s[i].0, #[trigger] s[j].0)
}

/// Keys strictly descending.
pub open spec fn view_descending(s: Seq<(Seq<u8>, Seq<u8>)>) -> bool {
    forall|i: int, j: int| 0 <= i < j < s.len() ==> lex_lt(#[trigger] s[j].0, #[trigger] s[i].0)
}

/// The pairs of `s` whose key is at or above `key`, in order.
pub open spec fn geq_filter(s: Seq<(Seq<u8>, Seq<u8>)>, key: Seq<u8>) -> Seq<(Seq<u8>, Seq<u8>)> {
    s.filter(|p: (Seq<u8>, Seq<u8>)| !lex_lt(p.0, key))
}

/// The pairs of `s` whose key is at or below `key`, in order.
pub open spec fn leq_filter(s: Seq<(Seq<u8>, Seq<u8>)>, key: Seq<u8>) -> Seq<(Seq<u8>, Seq<u8>)> {
    s.filter(|p: (Seq<u8>, Seq<u8>)| !lex_lt(key, p.0))
}

/// The sequence a cursor over the ascending pairs `asc` yields under mode
/// `m`: everything ascending, everything descending, or the pairs at or
/// beyond the seek key in the chosen direction.
pub open spec fn yields_view(asc: Seq<(Seq<u8>, Seq<u8>)>, m: ModeModel) -> Seq<
    (Seq<u8>, Seq<u8>),
> {
    match m {
        ModeModel::Start => asc,
        ModeModel::End => asc.reverse(),
        ModeModel::From { key, dir } => if dir == Direction::Forward {
            geq_filter(asc, key)
        } else {
            leq_filter(asc, key).reverse()
        },
    }
}

/// An owned copy of `v` in reverse order.
fn reverse_pairs(v: &Vec<KvPair>) -> (r: Vec<KvPair>)
    ensures
        pairs_view(r@) == pairs_view(v@).reverse(),
{
    let mut r: Vec<KvPair> = Vec::new();
    let mut i: usize = v.len();
    while i > 0
        invariant
            i <= v@.len(),
            r@.len() == v@.len() - i,
            forall|m: int|
                0 <= m < r@.len() ==> pairs_view(r@)[m] == pairs_view(v@)[v@.len() - 1 - m],
        decreases i,
    {
        i -= 1;
        let ghost r0 = r@;
        let p = KvPair { key: copy_bytes(&v[i].key), val: copy_bytes(&v[i].val) };
        r.push(p);
        proof {
            assert(pairs_view(r@)[r@.len() - 1] == pairs_view(v@)[i as int]);
            assert forall|m: int| 0 <= m < r@.len() - 1 implies pairs_view(r@)[m] == pairs_view(
                v@,
            )[v@.len() - 1 - m] by {
                assert(r@[m] == r0[m]);
                assert(pairs_view(r0)[m] == pairs_view(v@)[v@.len() - 1 - m]);
            }
        }
    }
    proof {
        assert(pairs_view(r@) =~= pairs_view(v@).reverse());
    }
    r
}

/// An owned copy of the pairs of `v` whose key is at or above `key`; of an
/// ascending input the output is ascending too.
fn filter_from(v: &Vec<KvPair>, key: &Vec<u8>) -> (r: Vec<KvPair>)
    ensures
        pairs_view(r@) == geq_filter(pairs_view(v@), key@),
{
    let mut r: Vec<KvPair> = Vec::new();
    let mut i: usize = 0;
    proof {
        assert(pairs_view(v@.take(0)) =~= Seq::<(Seq<u8>, Seq<u8>)>::empty());
        assert(geq_filter(pairs_view(v@.take(0)), key@) =~= Seq::<(Seq<u8>, Seq<u8>)>::empty())
            by {
            reveal(Seq::filter);
        }
        assert(pairs_view(r@) =~= Seq::<(Seq<u8>, Seq<u8>)>::empty());
    }
    while i < v.len()
        invariant
            i <= v@.len(),
            pairs_view(r@) == geq_filter(pairs_view(v@.take(i as int)), key@),
        decreases v@.len() - i,
    {
        let ghost pv0 = pairs_view(v@.take(i as int));
        let ghost pv1 = pairs_view(v@.take(i as int + 1));
        proof {
            reveal(Seq::filter);
            assert(pv1.drop_last() =~= pv0);
            assert(pv1.last() == (v@[i as int].key@, v@[i as int].val@));
            assert(geq_filter(pv1, key@) == (if !lex_lt(pv1.last().0, key@) {
                geq_filter(pv0, key@).push(pv1.last())
            } else {
                geq_filter(pv0, key@)
            }));
        }
        if !key_lt(&v[i].key, key) {
            let p = KvPair { key: copy_bytes(&v[i].key), val: copy_bytes(&v[i].val) };
            r.push(p);
            proof {
                assert(pairs_view(r@) =~= geq_filter(pv0, key@).push(pv1.last()));
            }
        }
        i += 1;
    }
    proof {
        assert(v@.take(v@.len() as int) =~= v@);
    }
    r
}

/// An owned copy of the pairs of `v` whose key is at or below `key`.
fn filter_upto(v: &Vec<KvPair>, key: &Vec<u8>) -> (r: Vec<KvPair>)
    ensures
        pairs_view(r@) == leq_filter(pairs_view(v@), key@),
{
    let mut r: Vec<KvPair> = Vec::new();
    let mut i: usize = 0;
    proof {
        assert(pairs_view(v@.take(0)) =~= Seq::<(Seq<u8>, Seq<u8>)>::empty());
        assert(leq_filter(pairs_view(v@.take(0)), key@) =~= Seq::<(Seq<u8>, Seq<u8>)>::empty())
            by {
            reveal(Seq::filter);
        }
        assert(pairs_view(r@) =~= Seq::<(Seq<u8>, Seq<u8>)>::empty());
    }
    while i < v.len()
        invariant
            i <= v@.len(),
            pairs_view(r@) == leq_filter(pairs_view(v@.take(i as int)), key@),
        decreases v@.len() - i,
    {
        let ghost pv0 = pairs_view(v@.take(i as int));
        let ghost pv1 = pairs_view(v@.take(i as int + 1));
        proof {
            reveal(Seq::filter);
            assert(pv1.drop_last() =~= pv0);
            assert(pv1.last() == (v@[i as int].key@, v@[i as int].val@));
            assert(leq_filter(pv1, key@) == (if !lex_lt(key@, pv1.last().0) {
                leq_filter(pv0, key@).push(pv1.last())
            } else {
                leq_filter(pv0, key@)
            }));
        }
        if !key_lt(key, &v[i].key) {
            let p = KvPair { key: copy_bytes(&v[i].key), val: copy_bytes(&v[i].val) };
            r.push(p);
            proof {
                assert(pairs_view(r@) =~= leq_filter(pv0, key@).push(pv1.last()));
            }
        }
        i += 1;
    }
    proof {
        assert(v@.take(v@.len() as int) =~= v@);
    }
    r
}

/// A filtered subsequence of an ascending sequence is ascending.
proof fn lemma_filter_keeps_order(s: Seq<(Seq<u8>, Seq<u8>)>, pred: spec_fn((Seq<u8>, Seq<u8>)) -> bool)
    requires
        view_ascending(s),
    ensures
        view_ascending(s.filter(pred)),
        forall|m: int|
            0 <= m < s.filter(pred).len() ==> exists|j: int|
                0 <= j < s.len() && (#[trigger] s.filter(pred)[m]) == s[j],
    decreases s.len(),
{
    reveal(Seq::filter);
    if s.len() > 0 {
        let pre = s.drop_last();
        assert(forall|j: int| 0 <= j < pre.len() ==> pre[j] == s[j]);
        lemma_filter_keeps_order(pre, pred);
        let f = s.filter(pred);
        let fp = pre.filter(pred);
        if pred(s.last()) {
            assert(f == fp.push(s.last()));
            assert forall|m: int, n: int| 0 <= m < n < f.len() implies lex_lt(
                #[trigger] f[m].0,
                #[trigger] f[n].0,
            ) by {
                if n < f.len() - 1 {
                    assert(f[m] == fp[m] && f[n] == fp[n]);
                } else {
                    assert(f[m] == fp[m]);
                    let j = choose|j: int| 0 <= j < pre.len() && (#[trigger] fp[m]) == pre[j];
                    assert(lex_lt(s[j].0, s[s.len() - 1].0));
                }
            }
            assert forall|m: int| 0 <= m < f.len() implies exists|j: int|
                0 <= j < s.len() && (#[trigger] f[m]) == s[j] by {
                if m < f.len() - 1 {
                    let j = choose|j: int| 0 <= j < pre.len() && (#[trigger] fp[m]) == pre[j];
                    assert(f[m] == s[j]);
                } else {
                    assert(f[m] == s[s.len() - 1]);
                }
            }
        } else {
            assert(f == fp);
            assert forall|m: int| 0 <= m < f.len() implies exists|j: int|
                0 <= j < s.len() && (#[trigger] f[m]) == s[j] by {
                let j = choose|j: int| 0 <= j < pre.len() && (#[trigger] fp[m]) == pre[j];
                assert(f[m] == s[j]);
            }
        }
    }
}

/// A reversed ascending sequence is descending.
proof fn lemma_reverse_descending(s: Seq<(Seq<u8>, Seq<u8>)>)
    requires
        view_ascending(s),
    ensures
        view_descending(s.reverse()),
{
    assert forall|i: int, j: int| 0 <= i < j < s.reverse().len() implies lex_lt(
        #[trigger] s.reverse()[j].0,
        #[trigger] s.reverse()[i].0,
    ) by {
        assert(s.reverse()[i] == s[s.len() - 1 - i]);
        assert(s.reverse()[j] == s[s.len() - 1 - j]);
    }
}

impl Registry {
    /// Whether `it` names an issued cursor.
    pub open spec fn cursor_valid(self, it: IterHandle) -> bool {
        it.id < self.cursors@.len()
    }

    /// The cursor `it` names.
    pub open spec fn cursor_at(self, it: IterHandle) -> IteratorResource {
        self.cursors@[it.id as int]
    }

    /// Creates a cursor over the column family `cf` of the database `h`
    /// names, positioned by the iterator mode decoded from `opts`. The
    /// yield sequence is pinned at creation: the live pairs of the column
    /// family, ascending from the start, descending from the end, or cut at
    /// the seek key — so a `Start` cursor yields keys in ascending order
    /// and an `End` cursor yields them in descending order.
    pub fn iterator_cf(&mut self, h: DbHandle, cf: &Vec<u8>, opts: &Vec<OptEntry>) -> (r: Result<
        IterHandle,
        KvError,
    >)
        requires
            old(self).wf(),
        ensures
            final(self).wf(),
            final(self).dbs == old(self).dbs,
            final(self).txns == old(self).txns,
            final(self).default_db == old(self).default_db,
            r is Ok <==> (old(self).db_live(h) && old(self).db_at(h).has_cf(cf@)),
            match r {
                Ok(it) => {
                    &&& old(self).db_live(h) && old(self).db_at(h).has_cf(cf@)
                    &&& it.id == old(self).cursors@.len()
                    &&& final(self).cursors@.len() == old(self).cursors@.len() + 1
                    &&& forall|j: int|
                        0 <= j < old(self).cursors@.len() ==> final(self).cursors@[j] == old(self).cursors@[j]
                    &&& final(self).cursor_at(it).db == h
                    &&& final(self).cursor_at(it).pos == 0
                    &&& pairs_view(final(self).cursor_at(it).yields@) == yields_view(
                        old(self).db_at(h).cf_ks(cf@).live_pairs(),
                        mode_spec(opts@),
                    )
                    &&& (mode_spec(opts@) is Start || (mode_spec(opts@) matches ModeModel::From {
                        dir,
                        ..
                    } && dir == Direction::Forward)) ==> view_ascending(
                        pairs_view(final(self).cursor_at(it).yields@),
                    )
                    &&& (mode_spec(opts@) is End || (mode_spec(opts@) matches ModeModel::From {
                        dir,
                        ..
                    } && dir == Direction::Reverse)) ==> view_descending(
                        pairs_view(final(self).cursor_at(it).yields@),
                    )
                },
                Err(e) => {
                    &&& *final(self) == *old(self)
                    &&& (e is InvalidHandle <==> !old(self).db_live(h))
                    &&& (e is NotFound <==> (old(self).db_live(h) && !old(self).db_at(h).has_cf(
                        cf@,
                    )))
                },
            },
    {
        if h.id >= self.dbs.len() {
            return Err(KvError::InvalidHandle);
        }
        if !self.dbs[h.id].alive {
            return Err(KvError::InvalidHandle);
        }
        let ci = match self.dbs[h.id].find_cf(cf) {
            Some(ci) => ci,
            None => {
                return Err(KvError::NotFound);
            },
        };
        proof {
            self.dbs@[h.id as int].lemma_cf_idx_unique(ci as int, cf@);
        }
        let mode = parse_iterator_opts(opts);
        let asc = self.dbs[h.id].cfs[ci].ks.snapshot();
        let ghost asc_view = pairs_view(asc@);
        proof {
            Keyspace::lemma_live_props(self.dbs@[h.id as int].cfs@[ci as int].ks.slots@);
            assert(view_ascending(asc_view));
        }
        let yields = match &mode {
            IterMode::Start => asc,
            IterMode::End => {
                let r = reverse_pairs(&asc);
                proof {
                    lemma_reverse_descending(asc_view);
                }
                r
            },
            IterMode::From { key, dir } => {
                match dir {
                    Direction::Forward => {
                        let r = filter_from(&asc, key);
                        proof {
                            lemma_filter_keeps_order(
                                asc_view,
                                |p: (Seq<u8>, Seq<u8>)| !lex_lt(p.0, key@),
                            );
                        }
                        r
                    },
                    Direction::Reverse => {
                        let kept = filter_upto(&asc, key);
                        proof {
                            lemma_filter_keeps_order(
                                asc_view,
                                |p: (Seq<u8>, Seq<u8>)| !lex_lt(key@, p.0),
                            );
                            lemma_reverse_descending(pairs_view(kept@));
                        }
                        reverse_pairs(&kept)
                    },
                }
            },
        };
        let it = IterHandle { id: self.cursors.len() };
        self.cursors.push(IteratorResource { db: h, yields, pos: 0 });
        Ok(it)
    }

    /// Creates a cursor over the default column family of the database `h`
    /// names.
    pub fn iterator(&mut self, h: DbHandle, opts: &Vec<OptEntry>) -> (r: Result<
        IterHandle,
        KvError,
    >)
        requires
            old(self).wf(),
        ensures
            final(self).wf(),
            final(self).dbs == old(self).dbs,
            final(self).txns == old(self).txns,
            final(self).default_db == old(self).default_db,
            r is Ok <==> (old(self).db_live(h) && old(self).db_at(h).has_cf(
                crate::engine::default_cf(),
            )),
            match r {
                Ok(it) => {
                    &&& old(self).db_live(h) && old(self).db_at(h).has_cf(
                        crate::engine::default_cf(),
                    )
                    &&& it.id == old(self).cursors@.len()
                    &&& final(self).cursors@.len() == old(self).cursors@.len() + 1
                    &&& forall|j: int|
                        0 <= j < old(self).cursors@.len() ==> final(self).cursors@[j] == old(self).cursors@[j]
                    &&& final(self).cursor_at(it).db == h
                    &&& final(self).cursor_at(it).pos == 0
                    &&& pairs_view(final(self).cursor_at(it).yields@) == yields_view(
                        old(self).db_at(h).cf_ks(crate::engine::default_cf()).live_pairs(),
                        mode_spec(opts@),
                    )
                    &&& (mode_spec(opts@) is Start || (mode_spec(opts@) matches ModeModel::From {
                        dir,
                        ..
                    } && dir == Direction::Forward)) ==> view_ascending(
                        pairs_view(final(self).cursor_at(it).yields@),
                    )
                    &&& (mode_spec(opts@) is End || (mode_spec(opts@) matches ModeModel::From {
                        dir,
                        ..
                    } && dir == Direction::Reverse)) ==> view_descending(
                        pairs_view(final(self).cursor_at(it).yields@),
                    )
                },
                Err(e) => {
                    &&& *final(self) == *old(self)
                    &&& (e is InvalidHandle <==> !old(self).db_live(h))
                    &&& (e is NotFound <==> (old(self).db_live(h) && !old(self).db_at(h).has_cf(
                        crate::engine::default_cf(),
                    )))
                },
            },
    {
        let name = crate::engine::default_cf_name();
        self.iterator_cf(h, &name, opts)
    }

    /// Advances the cursor `it`: the pair at its position (moving it on), or
    /// the exhausted signal, idempotently, once the position has passed the
    /// last pair.
    pub fn iterator_next(&mut self, it: IterHandle) -> (r: Result<Step, KvError>)
        requires
            old(self).wf(),
        ensures
            final(self).wf(),
            final(self).dbs == old(self).dbs,
            final(self).txns == old(self).txns,
            final(self).default_db == old(self).default_db,
            r is Ok <==> old(self).cursor_valid(it),
            match r {
                Ok(s) => {
                    &&& old(self).cursor_valid(it)
                    &&& final(self).cursors@.len() == old(self).cursors@.len()
                    &&& forall|j: int|
                        0 <= j < old(self).cursors@.len() && j != it.id ==> final(self).cursors@[j] == old(self).cursors@[j]
                    &&& final(self).cursor_at(it).db == old(self).cursor_at(it).db
                    &&& final(self).cursor_at(it).yields == old(self).cursor_at(it).yields
                    &&& match s {
                        Step::Pair(k, v) => {
                            &&& old(self).cursor_at(it).pos < old(self).cursor_at(
                                it,
                            ).yields@.len()
                            &&& k@ == old(self).cursor_at(it).yields@[old(self).cursor_at(
                                it,
                            ).pos as int].key@
                            &&& v@ == old(self).cursor_at(it).yields@[old(self).cursor_at(
                                it,
                            ).pos as int].val@
                            &&& final(self).cursor_at(it).pos == old(self).cursor_at(it).pos + 1
                        },
                        Step::Finished => {
                            &&& old(self).cursor_at(it).pos == old(self).cursor_at(
                                it,
                            ).yields@.len()
                            &&& *final(self) == *old(self)
                        },
                    }
                },
                Err(e) => {
                    &&& *final(self) == *old(self)
                    &&& e is InvalidHandle
                    &&& !old(self).cursor_valid(it)
                },
            },
    {
        if it.id >= self.cursors.len() {
            return Err(KvError::InvalidHandle);
        }
        let pos = self.cursors[it.id].pos;
        if pos < self.cursors[it.id].yields.len() {
            let k = copy_bytes(&self.cursors[it.id].yields[pos].key);
            let v = copy_bytes(&self.cursors[it.id].yields[pos].val);
            self.cursors[it.id].pos = pos + 1;
            Ok(Step::Pair(k, v))
        } else {
            Ok(Step::Finished)
        }
    }
}

} // verus!
