use kvhandles::codec::HostTerm;
use kvhandles::cursor::Step;
use kvhandles::errors::KvError;
use kvhandles::options::OptEntry;
use kvhandles::registry::{DbHandle, IterHandle, Registry, TxnHandle};

fn open_opts() -> Vec<OptEntry> {
    vec![
        OptEntry { name: b"create_if_missing".to_vec(), value: HostTerm::Bool(true) },
        OptEntry {
            name: b"create_missing_column_families".to_vec(),
            value: HostTerm::Bool(true),
        },
    ]
}

fn fresh_db(reg: &mut Registry) -> DbHandle {
    reg.open(&b"/data/db".to_vec(), &open_opts(), &Vec::new()).unwrap()
}

fn mode_opts(mode: HostTerm) -> Vec<OptEntry> {
    vec![OptEntry { name: b"iterator_mode".to_vec(), value: mode }]
}

fn drain(reg: &mut Registry, it: IterHandle) -> Vec<(Vec<u8>, Vec<u8>)> {
    let mut out = Vec::new();
    loop {
        match reg.iterator_next(it).unwrap() {
            Step::Pair(k, v) => out.push((k, v)),
            Step::Finished => return out,
        }
    }
}

fn seed(reg: &mut Registry, h: DbHandle) {
    let d = b"default".to_vec();
    // inserted out of order on purpose
    reg.put_cf(h, &d, &b"cherry".to_vec(), &b"3".to_vec()).unwrap();
    reg.put_cf(h, &d, &b"apple".to_vec(), &b"1".to_vec()).unwrap();
    reg.put_cf(h, &d, &b"banana".to_vec(), &b"2".to_vec()).unwrap();
}

#[test]
fn start_iterator_yields_ascending_keys() {
    let mut reg = Registry::new();
    let h = fresh_db(&mut reg);
    seed(&mut reg, h);
    let it = reg.iterator(h, &mode_opts(HostTerm::Name(b"start".to_vec()))).unwrap();
    let got = drain(&mut reg, it);
    assert_eq!(
        got,
        vec![
            (b"apple".to_vec(), b"1".to_vec()),
            (b"banana".to_vec(), b"2".to_vec()),
            (b"cherry".to_vec(), b"3".to_vec()),
        ]
    );
}

#[test]
fn end_iterator_yields_descending_keys() {
    let mut reg = Registry::new();
    let h = fresh_db(&mut reg);
    seed(&mut reg, h);
    let it = reg.iterator(h, &mode_opts(HostTerm::Name(b"end".to_vec()))).unwrap();
    let got = drain(&mut reg, it);
    assert_eq!(
        got,
        vec![
            (b"cherry".to_vec(), b"3".to_vec()),
            (b"banana".to_vec(), b"2".to_vec()),
            (b"apple".to_vec(), b"1".to_vec()),
        ]
    );
}

#[test]
fn from_iterator_seeks_in_both_directions() {
    let mut reg = Registry::new();
    let h = fresh_db(&mut reg);
    seed(&mut reg, h);
    let fwd = HostTerm::Tuple3(
        Box::new(HostTerm::Name(b"from".to_vec())),
        Box::new(HostTerm::Bin(b"banana".to_vec())),
        Box::new(HostTerm::Name(b"forward".to_vec())),
    );
    let it = reg.iterator(h, &mode_opts(fwd)).unwrap();
    let got = drain(&mut reg, it);
    assert_eq!(
        got,
        vec![(b"banana".to_vec(), b"2".to_vec()), (b"cherry".to_vec(), b"3".to_vec())]
    );
    let rev = HostTerm::Tuple3(
        Box::new(HostTerm::Name(b"from".to_vec())),
        Box::new(HostTerm::Bin(b"banana".to_vec())),
        Box::new(HostTerm::Name(b"reverse".to_vec())),
    );
    let it2 = reg.iterator(h, &mode_opts(rev)).unwrap();
    let got2 = drain(&mut reg, it2);
    assert_eq!(
        got2,
        vec![(b"banana".to_vec(), b"2".to_vec()), (b"apple".to_vec(), b"1".to_vec())]
    );
}

#[test]
fn exhausted_iterator_stays_finished() {
    let mut reg = Registry::new();
    let h = fresh_db(&mut reg);
    let d = b"default".to_vec();
    reg.put_cf(h, &d, &b"only".to_vec(), &b"1".to_vec()).unwrap();
    let it = reg.iterator(h, &Vec::new()).unwrap();
    assert!(matches!(reg.iterator_next(it).unwrap(), Step::Pair(_, _)));
    // past the last entry, every further advance reports the same signal
    for _ in 0..4 {
        assert!(matches!(reg.iterator_next(it).unwrap(), Step::Finished));
    }
}

#[test]
fn iterator_sees_a_snapshot_taken_at_creation() {
    let mut reg = Registry::new();
    let h = fresh_db(&mut reg);
    let d = b"default".to_vec();
    reg.put_cf(h, &d, &b"k1".to_vec(), &b"v1".to_vec()).unwrap();
    let it = reg.iterator(h, &Vec::new()).unwrap();
    reg.put_cf(h, &d, &b"k2".to_vec(), &b"v2".to_vec()).unwrap();
    let got = drain(&mut reg, it);
    assert_eq!(got, vec![(b"k1".to_vec(), b"v1".to_vec())]);
}

#[test]
fn bogus_iterator_handle_is_invalid() {
    let mut reg = Registry::new();
    assert!(matches!(
        reg.iterator_next(IterHandle { id: 3 }),
        Err(KvError::InvalidHandle)
    ));
}

#[test]
fn transaction_isolation_then_commit_publishes() {
    let mut reg = Registry::new();
    let h = fresh_db(&mut reg);
    let d = b"default".to_vec();
    let k = b"k".to_vec();
    let v = b"v".to_vec();
    let t = reg.begin(h).unwrap();
    reg.transaction_put_cf(t, &d, &k, &v).unwrap();
    // inside the transaction the write reads back
    assert_eq!(reg.transaction_get_cf(t, &d, &k).unwrap(), Some(v.clone()));
    // outside, the key is still absent
    assert_eq!(reg.get_cf(h, &d, &k).unwrap(), None);
    reg.commit(t).unwrap();
    // after commit the write is visible outside
    assert_eq!(reg.get_cf(h, &d, &k).unwrap(), Some(v));
}

#[test]
fn transaction_reads_through_to_the_database() {
    let mut reg = Registry::new();
    let h = fresh_db(&mut reg);
    let d = b"default".to_vec();
    reg.put_cf(h, &d, &b"base".to_vec(), &b"1".to_vec()).unwrap();
    let t = reg.begin(h).unwrap();
    assert_eq!(reg.transaction_get_cf(t, &d, &b"base".to_vec()).unwrap(), Some(b"1".to_vec()));
    // a buffered deletion shadows the base value inside the transaction
    reg.transaction_delete_cf(t, &d, &b"base".to_vec()).unwrap();
    assert_eq!(reg.transaction_get_cf(t, &d, &b"base".to_vec()).unwrap(), None);
    // and the base value still stands outside
    assert_eq!(reg.get_cf(h, &d, &b"base".to_vec()).unwrap(), Some(b"1".to_vec()));
}

#[test]
fn second_commit_reports_transaction_consumed() {
    let mut reg = Registry::new();
    let h = fresh_db(&mut reg);
    let d = b"default".to_vec();
    let t = reg.begin(h).unwrap();
    reg.transaction_put_cf(t, &d, &b"k".to_vec(), &b"v".to_vec()).unwrap();
    reg.commit(t).unwrap();
    assert!(matches!(reg.commit(t), Err(KvError::TransactionConsumed)));
    // the write was applied exactly once and is still there
    assert_eq!(reg.get_cf(h, &d, &b"k".to_vec()).unwrap(), Some(b"v".to_vec()));
}

#[test]
fn operations_on_consumed_transaction_fail() {
    let mut reg = Registry::new();
    let h = fresh_db(&mut reg);
    let d = b"default".to_vec();
    let t = reg.begin(h).unwrap();
    reg.rollback(t).unwrap();
    assert!(matches!(
        reg.transaction_put_cf(t, &d, &b"k".to_vec(), &b"v".to_vec()),
        Err(KvError::TransactionConsumed)
    ));
    assert!(matches!(
        reg.transaction_get_cf(t, &d, &b"k".to_vec()),
        Err(KvError::TransactionConsumed)
    ));
    assert!(matches!(reg.rollback(t), Err(KvError::TransactionConsumed)));
    assert!(matches!(reg.commit(t), Err(KvError::TransactionConsumed)));
}

#[test]
fn rollback_discards_buffered_writes() {
    let mut reg = Registry::new();
    let h = fresh_db(&mut reg);
    let d = b"default".to_vec();
    let t = reg.begin(h).unwrap();
    reg.transaction_put_cf(t, &d, &b"k".to_vec(), &b"v".to_vec()).unwrap();
    reg.rollback(t).unwrap();
    assert_eq!(reg.get_cf(h, &d, &b"k".to_vec()).unwrap(), None);
}

#[test]
fn conflicting_commit_loses_and_applies_nothing() {
    let mut reg = Registry::new();
    let h = fresh_db(&mut reg);
    let d = b"default".to_vec();
    let k = b"contested".to_vec();
    let t1 = reg.begin(h).unwrap();
    let t2 = reg.begin(h).unwrap();
    reg.transaction_put_cf(t1, &d, &k, &b"first".to_vec()).unwrap();
    reg.transaction_put_cf(t2, &d, &k, &b"second".to_vec()).unwrap();
    reg.commit(t1).unwrap();
    // the second to attempt commit receives a conflict error
    assert!(matches!(reg.commit(t2), Err(KvError::Engine { .. })));
    // and its writes were not applied
    assert_eq!(reg.get_cf(h, &d, &k).unwrap(), Some(b"first".to_vec()));
    // the losing transaction is consumed by the failed attempt
    assert!(matches!(reg.commit(t2), Err(KvError::TransactionConsumed)));
}

#[test]
fn non_overlapping_transactions_both_commit() {
    let mut reg = Registry::new();
    let h = fresh_db(&mut reg);
    let d = b"default".to_vec();
    let t1 = reg.begin(h).unwrap();
    let t2 = reg.begin(h).unwrap();
    reg.transaction_put_cf(t1, &d, &b"a".to_vec(), &b"1".to_vec()).unwrap();
    reg.transaction_put_cf(t2, &d, &b"b".to_vec(), &b"2".to_vec()).unwrap();
    reg.commit(t1).unwrap();
    reg.commit(t2).unwrap();
    assert_eq!(reg.get_cf(h, &d, &b"a".to_vec()).unwrap(), Some(b"1".to_vec()));
    assert_eq!(reg.get_cf(h, &d, &b"b".to_vec()).unwrap(), Some(b"2".to_vec()));
}

#[test]
fn transaction_against_missing_cf_reports_not_found() {
    let mut reg = Registry::new();
    let h = fresh_db(&mut reg);
    let t = reg.begin(h).unwrap();
    let absent = b"missing".to_vec();
    assert!(matches!(
        reg.transaction_put_cf(t, &absent, &b"k".to_vec(), &b"v".to_vec()),
        Err(KvError::NotFound)
    ));
    assert!(matches!(
        reg.transaction_get_cf(t, &absent, &b"k".to_vec()),
        Err(KvError::NotFound)
    ));
}

#[test]
fn bogus_transaction_handle_is_invalid() {
    let mut reg = Registry::new();
    let t = TxnHandle { id: 9 };
    assert!(matches!(reg.commit(t), Err(KvError::InvalidHandle)));
    assert!(matches!(reg.rollback(t), Err(KvError::InvalidHandle)));
}

#[test]
fn dump_a_column_family_through_a_cursor() {
    let mut reg = Registry::new();
    let h = fresh_db(&mut reg);
    seed(&mut reg, h);
    let it = reg.iterator(h, &Vec::new()).unwrap();
    let mut pairs: Vec<kvhandles::keys::KvPair> = Vec::new();
    loop {
        match reg.iterator_next(it).unwrap() {
            Step::Pair(k, v) => pairs.push(kvhandles::keys::KvPair { key: k, val: v }),
            Step::Finished => break,
        }
    }
    let bytes = kvhandles::records::dump_records(&pairs);
    let back = kvhandles::records::parse_records(&bytes).unwrap();
    assert_eq!(back.len(), 3);
    assert_eq!(back[0].key, b"apple".to_vec());
    assert_eq!(back[2].val, b"3".to_vec());
}
