//! The fixed binary record format of a keyspace dump: for each pair, a
//! big-endian 4-byte length prefix, the key bytes, a big-endian 4-byte length
//! prefix, the value bytes — uncompressed, with no header, footer or
//! checksum. Encoding and parsing invert each other exactly.

use vstd::prelude::*;

use crate::keys::KvPair;

verus! {

/// The four big-endian bytes of a 32-bit length.
pub open spec fn be32(n: u32) -> Seq<u8> {
    seq![
        ((n >> 24) & 0xff) as u8,
        ((n >> 16) & 0xff) as u8,
        ((n >> 8) & 0xff) as u8,
        (n & 0xff) as u8,
    ]
}

/// The 32-bit value of four big-endian bytes.
pub open spec fn from_be32(b0: u8, b1: u8, b2: u8, b3: u8) -> u32 {
    ((b0 as u32) << 24) | ((b1 as u32) << 16) | ((b2 as u32) << 8) | (b3 as u32)
}

pub proof fn lemma_be32_round_trip(n: u32)
    ensures
        from_be32(be32(n)[0], be32(n)[1], be32(n)[2], be32(n)[3]) == n,
{
    assert((((((n >> 24) & 0xff) as u8 as u32) << 24) | ((((n >> 16) & 0xff) as u8 as u32) << 16)
        | ((((n >> 8) & 0xff) as u8 as u32) << 8) | ((n & 0xff) as u8 as u32)) == n)
        by (bit_vector);
}

/// Whether one key/value pair fits the 4-byte length prefixes of the format.
pub open spec fn fits_record(k: Seq<u8>, v: Seq<u8>) -> bool {
    k.len() <= 0xffffffff && v.len() <= 0xffffffff
}

/// The bytes of one framed record.
pub open spec fn record_bytes(k: Seq<u8>, v: Seq<u8>) -> Seq<u8> {
    be32(k.len() as u32) + k + be32(v.len() as u32) + v
}

/// The bytes of a whole dump: the records in order, nothing else.
pub open spec fn dump_bytes(entries: Seq<(Seq<u8>, Seq<u8>)>) -> Seq<u8>
    decreases entries.len(),
{
    if entries.len() == 0 {
        Seq::empty()
    } else {
        record_bytes(entries[0].0, entries[0].1) + dump_bytes(entries.drop_first())
    }
}

/// The unique sequence of pairs a byte string frames, or `None` when the
/// framing is truncated or trailing bytes remain.
pub open spec fn parse_bytes(b: Seq<u8>) -> Option<Seq<(Seq<u8>, Seq<u8>)>>
    decreases b.len(),
{
    if b.len() == 0 {
        Some(Seq::empty())
    } else if b.len() < 4 {
        None
    } else {
        let kl = from_be32(b[0], b[1], b[2], b[3]) as int;
        if b.len() < 4 + kl + 4 {
            None
        } else {
            let k = b.subrange(4, 4 + kl);
            let vl = from_be32(b[4 + kl], b[4 + kl + 1], b[4 + kl + 2], b[4 + kl + 3]) as int;
            if b.len() < 4 + kl + 4 + vl {
                None
            } else {
                let v = b.subrange(4 + kl + 4, 4 + kl + 4 + vl);
                match parse_bytes(b.skip(4 + kl + 4 + vl)) {
                    Some(rest) => Some(seq![(k, v)] + rest),
                    None => None,
                }
            }
        }
    }
}

/// The pairs a vector of key/value pairs stands for.
pub open spec fn pairs_view(s: Seq<KvPair>) -> Seq<(Seq<u8>, Seq<u8>)> {
    Seq::new(s.len(), |i: int| (s[i].key@, s[i].val@))
}

/// Appending one pair to a dump appends exactly its record.
pub proof fn lemma_dump_snoc(s: Seq<(Seq<u8>, Seq<u8>)>, p: (Seq<u8>, Seq<u8>))
    ensures
        dump_bytes(s.push(p)) == dump_bytes(s) + record_bytes(p.0, p.1),
    decreases s.len(),
{
    if s.len() == 0 {
        assert(s.push(p)[0] == p);
        assert(s.push(p).drop_first() =~= Seq::<(Seq<u8>, Seq<u8>)>::empty());
        assert(dump_bytes(s.push(p).drop_first()) =~= Seq::<u8>::empty());
        assert(record_bytes(p.0, p.1) + Seq::<u8>::empty() =~= record_bytes(p.0, p.1));
        assert(Seq::<u8>::empty() + record_bytes(p.0, p.1) =~= record_bytes(p.0, p.1));
        assert(dump_bytes(s) =~= Seq::<u8>::empty());
    } else {
        assert(s.push(p).drop_first() =~= s.drop_first().push(p));
        lemma_dump_snoc(s.drop_first(), p);
        assert(s.push(p)[0] == s[0]);
        assert((record_bytes(s[0].0, s[0].1) + dump_bytes(s.drop_first())) + record_bytes(p.0, p.1)
            =~= record_bytes(s[0].0, s[0].1) + (dump_bytes(s.drop_first()) + record_bytes(
            p.0,
            p.1,
        )));
    }
}

/// Round trip: parsing a dump reproduces the exact original key/value byte
/// sequences — the framing is exact, with no truncation or padding.
pub proof fn lemma_parse_dump_round_trip(entries: Seq<(Seq<u8>, Seq<u8>)>)
    requires
        forall|i: int| 0 <= i < entries.len() ==> fits_record(
            #[trigger] entries[i].0,
            entries[i].1,
        ),
    ensures
        parse_bytes(dump_bytes(entries)) == Some(entries),
    decreases entries.len(),
{
    if entries.len() == 0 {
        assert(Seq::<(Seq<u8>, Seq<u8>)>::empty() =~= entries);
    } else {
        let k = entries[0].0;
        let v = entries[0].1;
        let rec = record_bytes(k, v);
        let rest_bytes = dump_bytes(entries.drop_first());
        let d = dump_bytes(entries);
        assert(d == rec + rest_bytes);
        assert(rec.len() == 4 + k.len() + 4 + v.len());
        lemma_be32_round_trip(k.len() as u32);
        lemma_be32_round_trip(v.len() as u32);
        let kl = from_be32(d[0], d[1], d[2], d[3]) as int;
        assert(d[0] == be32(k.len() as u32)[0]);
        assert(d[1] == be32(k.len() as u32)[1]);
        assert(d[2] == be32(k.len() as u32)[2]);
        assert(d[3] == be32(k.len() as u32)[3]);
        assert(kl == k.len());
        assert(d.len() >= 4 + kl + 4);
        assert(d.subrange(4, 4 + kl) =~= k);
        assert(d[4 + kl] == be32(v.len() as u32)[0]);
        assert(d[4 + kl + 1] == be32(v.len() as u32)[1]);
        assert(d[4 + kl + 2] == be32(v.len() as u32)[2]);
        assert(d[4 + kl + 3] == be32(v.len() as u32)[3]);
        let vl = from_be32(d[4 + kl], d[4 + kl + 1], d[4 + kl + 2], d[4 + kl + 3]) as int;
        assert(vl == v.len());
        assert(d.len() >= 4 + kl + 4 + vl);
        assert(d.subrange(4 + kl + 4, 4 + kl + 4 + vl) =~= v);
        assert(d.skip(4 + kl + 4 + vl) =~= rest_bytes);
        lemma_parse_dump_round_trip(entries.drop_first());
        assert(seq![(k, v)] + entries.drop_first() =~= entries);
    }
}

/// Appends one framed record to `out`.
pub fn encode_record(key: &Vec<u8>, value: &Vec<u8>, out: &mut Vec<u8>)
    requires
        key@.len() <= 0xffffffff,
        value@.len() <= 0xffffffff,
    ensures
        final(out)@ == old(out)@ + record_bytes(key@, value@),
{
    let ghost base = out@;
    let kl: u32 = key.len() as u32;
    out.push(((kl >> 24) & 0xff) as u8);
    out.push(((kl >> 16) & 0xff) as u8);
    out.push(((kl >> 8) & 0xff) as u8);
    out.push((kl & 0xff) as u8);
    proof {
        assert(kl == key@.len() as u32);
        assert(out@ =~= base + be32(key@.len() as u32));
    }
    let ghost stage1 = out@;
    let mut j: usize = 0;
    while j < key.len()
        invariant
            j <= key@.len(),
            out@ == stage1 + key@.take(j as int),
        decreases key@.len() - j,
    {
        out.push(key[j]);
        proof {
            assert(stage1 + key@.take(j as int + 1) =~= (stage1 + key@.take(j as int)).push(
                key@[j as int],
            ));
        }
        j += 1;
    }
    proof {
        assert(key@.take(key@.len() as int) =~= key@);
    }
    let vl: u32 = value.len() as u32;
    out.push(((vl >> 24) & 0xff) as u8);
    out.push(((vl >> 16) & 0xff) as u8);
    out.push(((vl >> 8) & 0xff) as u8);
    out.push((vl & 0xff) as u8);
    proof {
        assert(vl == value@.len() as u32);
        assert(out@ =~= stage1 + key@ + be32(value@.len() as u32));
    }
    let ghost stage2 = out@;
    let mut j2: usize = 0;
    while j2 < value.len()
        invariant
            j2 <= value@.len(),
            out@ == stage2 + value@.take(j2 as int),
        decreases value@.len() - j2,
    {
        out.push(value[j2]);
        proof {
            assert(stage2 + value@.take(j2 as int + 1) =~= (stage2 + value@.take(j2 as int)).push(
                value@[j2 as int],
            ));
        }
        j2 += 1;
    }
    proof {
        assert(value@.take(value@.len() as int) =~= value@);
        assert(out@ =~= base + record_bytes(key@, value@));
    }
}

/// Dumps a sequence of key/value pairs to the fixed binary record format.
pub fn dump_records(entries: &Vec<KvPair>) -> (r: Vec<u8>)
    requires
        forall|i: int| 0 <= i < entries@.len() ==> fits_record(
            (#[trigger] entries@[i]).key@,
            entries@[i].val@,
        ),
    ensures
        r@ == dump_bytes(pairs_view(entries@)),
{
    let mut out: Vec<u8> = Vec::new();
    let mut m: usize = 0;
    proof {
        assert(pairs_view(entries@.take(0)) =~= Seq::<(Seq<u8>, Seq<u8>)>::empty());
    }
    while m < entries.len()
        invariant
            m <= entries@.len(),
            forall|i: int| 0 <= i < entries@.len() ==> fits_record(
                (#[trigger] entries@[i]).key@,
                entries@[i].val@,
            ),
            out@ == dump_bytes(pairs_view(entries@.take(m as int))),
        decreases entries@.len() - m,
    {
        let e = &entries[m];
        encode_record(&e.key, &e.val, &mut out);
        proof {
            lemma_dump_snoc(pairs_view(entries@.take(m as int)), (e.key@, e.val@));
            assert(pairs_view(entries@.take(m as int + 1)) =~= pairs_view(
                entries@.take(m as int),
            ).push((e.key@, e.val@)));
        }
        m += 1;
    }
    proof {
        assert(entries@.take(entries@.len() as int) =~= entries@);
    }
    out
}

/// Parses a dump back into its key/value pairs; `None` exactly when the
/// framing is truncated.
pub fn parse_records(bytes: &Vec<u8>) -> (r: Option<Vec<KvPair>>)
    ensures
        match r {
            Some(es) => parse_bytes(bytes@) == Some(pairs_view(es@)),
            None => parse_bytes(bytes@) is None,
        },
{
    let mut acc: Vec<KvPair> = Vec::new();
    let mut i: usize = 0;
    proof {
        assert(bytes@.skip(0) =~= bytes@);
        assert(pairs_view(acc@) =~= Seq::<(Seq<u8>, Seq<u8>)>::empty());
    }
    while i < bytes.len()
        invariant
            i <= bytes@.len(),
            parse_bytes(bytes@) == (match parse_bytes(bytes@.skip(i as int)) {
                Some(tail) => Some(pairs_view(acc@) + tail),
                None => None::<Seq<(Seq<u8>, Seq<u8>)>>,
            }),
        decreases bytes@.len() - i,
    {
        let ghost rest = bytes@.skip(i as int);
        let rem = bytes.len() - i;
        if rem < 4 {
            return None;
        }
        let kl32: u32 = (((bytes[i] as u32) << 24) | ((bytes[i + 1] as u32) << 16) | ((bytes[i
            + 2] as u32) << 8) | (bytes[i + 3] as u32));
        proof {
            assert(rest[0] == bytes@[i as int]);
            assert(rest[1] == bytes@[i as int + 1]);
            assert(rest[2] == bytes@[i as int + 2]);
            assert(rest[3] == bytes@[i as int + 3]);
            assert(kl32 == from_be32(rest[0], rest[1], rest[2], rest[3]));
        }
        let kl = kl32 as usize;
        if rem - 4 < kl {
            return None;
        }
        let mut key: Vec<u8> = Vec::new();
        let mut j: usize = 0;
        proof {
            assert(bytes@.subrange(i as int + 4, i as int + 4) =~= Seq::<u8>::empty());
        }
        while j < kl
            invariant
                j <= kl,
                i + 4 + kl <= bytes.len(),
                key@ == bytes@.subrange(i as int + 4, i as int + 4 + j as int),
            decreases kl - j,
        {
            key.push(bytes[i + 4 + j]);
            proof {
                assert(bytes@.subrange(i as int + 4, i as int + 4 + j as int + 1)
                    =~= bytes@.subrange(i as int + 4, i as int + 4 + j as int).push(
                    bytes@[i as int + 4 + j as int],
                ));
            }
            j += 1;
        }
        if rem - 4 - kl < 4 {
            return None;
        }
        let vbase = i + 4 + kl;
        let vl32: u32 = (((bytes[vbase] as u32) << 24) | ((bytes[vbase + 1] as u32) << 16) | ((
        bytes[vbase + 2] as u32) << 8) | (bytes[vbase + 3] as u32));
        proof {
            assert(rest[4 + kl as int] == bytes@[vbase as int]);
            assert(rest[4 + kl as int + 1] == bytes@[vbase as int + 1]);
            assert(rest[4 + kl as int + 2] == bytes@[vbase as int + 2]);
            assert(rest[4 + kl as int + 3] == bytes@[vbase as int + 3]);
            assert(vl32 == from_be32(
                rest[4 + kl as int],
                rest[4 + kl as int + 1],
                rest[4 + kl as int + 2],
                rest[4 + kl as int + 3],
            ));
        }
        let vl = vl32 as usize;
        if rem - 8 - kl < vl {
            return None;
        }
        let mut val: Vec<u8> = Vec::new();
        let mut j2: usize = 0;
        proof {
            assert(bytes@.subrange(i as int + 8 + kl as int, i as int + 8 + kl as int)
                =~= Seq::<u8>::empty());
        }
        while j2 < vl
            invariant
                j2 <= vl,
                i + 8 + kl + vl <= bytes.len(),
                val@ == bytes@.subrange(
                    i as int + 8 + kl as int,
                    i as int + 8 + kl as int + j2 as int,
                ),
            decreases vl - j2,
        {
            val.push(bytes[i + 8 + kl + j2]);
            proof {
                assert(bytes@.subrange(i as int + 8 + kl as int, i as int + 8 + kl as int
                    + j2 as int + 1) =~= bytes@.subrange(
                    i as int + 8 + kl as int,
                    i as int + 8 + kl as int + j2 as int,
                ).push(bytes@[i as int + 8 + kl as int + j2 as int]));
            }
            j2 += 1;
        }
        let ghost old_i = i as int;
        let ghost old_acc = acc@;
        proof {
            assert(rest.subrange(4, 4 + kl as int) =~= key@);
            assert(rest.subrange(4 + kl as int + 4, 4 + kl as int + 4 + vl as int) =~= val@);
            assert(rest.skip(4 + kl as int + 4 + vl as int) =~= bytes@.skip(
                old_i + 8 + kl as int + vl as int,
            ));
        }
        acc.push(KvPair { key, val });
        i = i + 8 + kl + vl;
        proof {
            let ghost kv = (rest.subrange(4, 4 + kl as int), rest.subrange(
                4 + kl as int + 4,
                4 + kl as int + 4 + vl as int,
            ));
            assert(pairs_view(acc@) =~= pairs_view(old_acc).push(kv));
            if parse_bytes(bytes@.skip(i as int)) is Some {
                let tail = parse_bytes(bytes@.skip(i as int))->0;
                assert(parse_bytes(rest) == Some(seq![kv] + tail));
                assert(pairs_view(old_acc) + (seq![kv] + tail) =~= pairs_view(acc@) + tail);
            } else {
                assert(parse_bytes(rest) is None);
            }
        }
    }
    proof {
        assert(bytes@.skip(bytes@.len() as int) =~= Seq::<u8>::empty());
        assert(pairs_view(acc@) + Seq::<(Seq<u8>, Seq<u8>)>::empty() =~= pairs_view(acc@));
    }
    Some(acc)
}

} // verus!
